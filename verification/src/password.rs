//! Password candidates and the rules that generate them.
//!
//! A candidate is a sequence of distinct words drawn from the pool without
//! replacement, optionally followed by one decimal digit and one symbol
//! character. Lengths are byte lengths under UTF-8 throughout.

use vstd::prelude::*;
use vstd::string::StrSliceExecFns;
use vstd::utf8::encode_scalar;

use crate::entropy::Entropy;
use crate::rng::rand_below;
use crate::selection::{distinct_selection, pick_distinct_indices};
use crate::strutil::{
    lemma_byte_len_add, lemma_contains_push, lemma_num_distinct_pos, num_distinct, push_char,
    spec_byte_len, spec_char_len, char_byte_len, str_byte_len,
};
use crate::util::{digit_char, digit_char_exec, Len};

verus! {

/// The configuration of one generation run: the word pool, how many words
/// to draw, and the optional numeral and symbol suffixes.
#[derive(Debug, Clone, Eq, PartialEq)]
pub struct PasswordRules {
    pub wordlist: Vec<String>,
    pub num_words: usize,
    pub append_numeral: bool,
    pub append_symbol: Option<String>,
}

/// One generated password: distinct words in the order drawn, then an
/// optional decimal digit, then an optional symbol.
#[derive(Debug, Clone, Eq, PartialEq, Default)]
pub struct Password {
    pub words: Vec<String>,
    pub numeral: Option<u8>,
    pub symbol: Option<char>,
}

/// The total byte length of a sequence of words.
pub open spec fn words_byte_len(ws: Seq<String>) -> nat
    decreases ws.len(),
{
    if ws.len() == 0 {
        0
    } else {
        words_byte_len(ws.drop_last()) + spec_byte_len(ws.last()@)
    }
}

/// The characters of a sequence of words, concatenated in order.
pub open spec fn concat_words(ws: Seq<String>) -> Seq<char>
    decreases ws.len(),
{
    if ws.len() == 0 {
        Seq::empty()
    } else {
        concat_words(ws.drop_last()) + ws.last()@
    }
}

impl PasswordRules {
    /// The pool is large enough for the requested number of words, and a
    /// configured symbol alphabet is non-empty.
    pub open spec fn wf(self) -> bool {
        &&& self.num_words <= self.wordlist@.len()
        &&& (self.append_symbol matches Some(a) ==> a@.len() >= 1)
    }

    /// Build the rules for one generation run from resolved options.
    pub fn new(
        wordlist: Vec<String>,
        num_words: usize,
        append_numeral: bool,
        append_symbol: Option<String>,
    ) -> (r: PasswordRules)
        requires
            num_words <= wordlist@.len(),
            append_symbol matches Some(a) ==> a@.len() >= 1,
        ensures
            r == (PasswordRules { wordlist, num_words, append_numeral, append_symbol }),
            r.wf(),
    {
        PasswordRules { wordlist, num_words, append_numeral, append_symbol }
    }

    /// `p` is a password these rules can produce: its words are the pool
    /// entries of some ordered selection of distinct indices, its numeral
    /// is a decimal digit present exactly when numerals are configured,
    /// and its symbol is drawn from the configured alphabet.
    pub open spec fn can_produce(self, p: Password) -> bool {
        &&& exists|idxs: Seq<usize>|
            distinct_selection(idxs, self.wordlist@.len() as int, self.num_words as int)
                && p.words@ == idxs.map_values(|i: usize| self.wordlist@[i as int])
        &&& (p.numeral is Some <==> self.append_numeral)
        &&& (p.numeral matches Some(d) ==> d < 10)
        &&& match (p.symbol, self.append_symbol) {
            (None, None) => true,
            (Some(c), Some(a)) => a@.contains(c),
            _ => false,
        }
    }

    /// Draw `num_words` distinct words from the pool, uniformly without
    /// replacement, in the order drawn.
    fn gen_words(&self, rng: &mut rand::rngs::StdRng) -> (words: Vec<String>)
        requires
            self.num_words <= self.wordlist@.len(),
        ensures
            exists|idxs: Seq<usize>|
                distinct_selection(idxs, self.wordlist@.len() as int, self.num_words as int)
                    && words@ == idxs.map_values(|i: usize| self.wordlist@[i as int]),
    {
        let idxs = pick_distinct_indices(self.wordlist.len(), self.num_words, rng);
        let mut words: Vec<String> = Vec::new();
        let k = idxs.len();
        for j in 0..k
            invariant
                k == idxs@.len(),
                distinct_selection(idxs@, self.wordlist@.len() as int, self.num_words as int),
                words@.len() == j,
                forall|m: int|
                    0 <= m < j ==> words@[m] == self.wordlist@[#[trigger] idxs@[m] as int],
        {
            let idx = idxs[j];
            let w = self.wordlist[idx].clone();
            words.push(w);
        }
        proof {
            let f = |i: usize| self.wordlist@[i as int];
            assert forall|m: int| 0 <= m < k implies idxs@.map_values(f)[m] == words@[m] by {
                assert(idxs@.map_values(f)[m] == f(idxs@[m]));
            }
            assert(words@ =~= idxs@.map_values(f));
        }
        words
    }

    /// Draw the optional numeral: a uniform decimal digit when configured.
    fn gen_numeral(&self, rng: &mut rand::rngs::StdRng) -> (r: Option<u8>)
        ensures
            r is Some <==> self.append_numeral,
            r matches Some(d) ==> d < 10,
    {
        if self.append_numeral {
            let d = rand_below(rng, 10);
            Some(d as u8)
        } else {
            None
        }
    }

    /// Draw the optional symbol: one uniform character of the alphabet
    /// when one is configured.
    fn gen_symbol(&self, rng: &mut rand::rngs::StdRng) -> (r: Option<char>)
        requires
            self.append_symbol matches Some(a) ==> a@.len() >= 1,
        ensures
            match (r, self.append_symbol) {
                (None, None) => true,
                (Some(c), Some(a)) => a@.contains(c),
                _ => false,
            },
    {
        match &self.append_symbol {
            None => None,
            Some(alpha) => {
                let n = alpha.as_str().unicode_len();
                let i = rand_below(rng, n);
                let c = alpha.as_str().get_char(i);
                Some(c)
            },
        }
    }

    /// Generate one password candidate: the word draw, the numeral draw
    /// and the symbol draw are three independent consumptions of the
    /// randomness source.
    pub fn gen_password(&self, rng: &mut rand::rngs::StdRng) -> (p: Password)
        requires
            self.wf(),
        ensures
            self.can_produce(p),
    {
        let words = self.gen_words(rng);
        let numeral = self.gen_numeral(rng);
        let symbol = self.gen_symbol(rng);
        Password { words, numeral, symbol }
    }

    /// Generate `count` candidates in order, consuming the randomness
    /// source sequentially: one draw of the candidate stream per entry,
    /// up to the caller's budget.
    pub fn stream_passwords(&self, rng: &mut rand::rngs::StdRng, count: usize) -> (ps: Vec<
        Password,
    >)
        requires
            self.wf(),
        ensures
            ps@.len() == count,
            forall|i: int| 0 <= i < count ==> self.can_produce(#[trigger] ps@[i]),
    {
        let mut ps: Vec<Password> = Vec::new();
        for j in 0..count
            invariant
                self.wf(),
                ps@.len() == j,
                forall|i: int| 0 <= i < j ==> self.can_produce(#[trigger] ps@[i]),
        {
            let p = self.gen_password(rng);
            ps.push(p);
        }
        ps
    }
    /// The entropy of the word draw: `num_words` successive uniform
    /// choices among `P`, `P-1`, ... alternatives, for a pool of size `P`;
    /// in bits, `log2(P) + log2(P-1) + ...`, the base-two logarithm of the
    /// number of ordered selections of distinct words.
    pub fn words_entropy(&self) -> (r: Entropy)
        requires
            self.num_words <= self.wordlist@.len(),
        ensures
            r.factors@ == Seq::new(
                self.num_words as nat,
                |i: int| (self.wordlist@.len() - i) as usize,
            ),
            r.divisors@ == Seq::<usize>::empty(),
            r.wf(),
    {
        let n = self.wordlist.len();
        let mut factors: Vec<usize> = Vec::new();
        for i in 0..self.num_words
            invariant
                n == self.wordlist@.len(),
                self.num_words <= n,
                factors@ =~= Seq::new(i as nat, |m: int| (n - m) as usize),
        {
            factors.push(n - i);
            proof {
                assert(factors@ =~= Seq::new((i + 1) as nat, |m: int| (n - m) as usize));
            }
        }
        Entropy { factors, divisors: Vec::new() }
    }

    /// The entropy of the numeral draw: `log2(10)` bits when a numeral is
    /// appended, else exactly zero.
    pub fn numeral_entropy(&self) -> (r: Entropy)
        ensures
            r.factors@ == if self.append_numeral {
                seq![10usize]
            } else {
                Seq::<usize>::empty()
            },
            r.divisors@ == Seq::<usize>::empty(),
            r.wf(),
    {
        if self.append_numeral {
            Entropy::of_choice(10)
        } else {
            Entropy::zero()
        }
    }

    /// The entropy of the symbol draw: the base-two logarithm of the
    /// number of distinct characters in the alphabet when a symbol is
    /// appended, else exactly zero.
    pub fn symbol_entropy(&self) -> (r: Entropy)
        requires
            self.append_symbol matches Some(a) ==> a@.len() >= 1,
        ensures
            r.factors@ == match self.append_symbol {
                Some(a) => seq![num_distinct(a@) as usize],
                None => Seq::<usize>::empty(),
            },
            r.divisors@ == Seq::<usize>::empty(),
            r.wf(),
    {
        match &self.append_symbol {
            None => Entropy::zero(),
            Some(alpha) => {
                let s = alpha.as_str();
                let n = s.unicode_len();
                let mut count: usize = 0;
                for i in 0..n
                    invariant
                        s@ == alpha@,
                        n == s@.len(),
                        count == num_distinct(s@.take(i as int)),
                        count <= i,
                {
                    let ci = s.get_char(i);
                    let mut dup = false;
                    for j in 0..i
                        invariant
                            s@ == alpha@,
                            n == s@.len(),
                            i < n,
                            ci == s@[i as int],
                            dup == s@.take(j as int).contains(ci),
                    {
                        let cj = s.get_char(j);
                        if cj == ci {
                            dup = true;
                        }
                        proof {
                            assert(s@.take(j + 1) =~= s@.take(j as int).push(s@[j as int]));
                            lemma_contains_push(s@.take(j as int), s@[j as int], ci);
                        }
                    }
                    if !dup {
                        count = count + 1;
                    }
                    proof {
                        assert(s@.take(i + 1).drop_last() =~= s@.take(i as int));
                        assert(s@.take(i + 1).last() == s@[i as int]);
                    }
                }
                proof {
                    assert(s@.take(n as int) =~= s@);
                    lemma_num_distinct_pos(s@);
                }
                Entropy::of_choice(count)
            },
        }
    }

    /// The combined entropy estimate of a completed run: word, numeral and
    /// symbol entropy, plus the empirical adjustment for candidates the
    /// length bounds rejected.
    pub fn total_entropy(&self, sample_size: usize, success_count: usize) -> (r: Entropy)
        requires
            self.wf(),
            1 <= success_count <= sample_size,
        ensures
            r.factors@ == Seq::new(
                self.num_words as nat,
                |i: int| (self.wordlist@.len() - i) as usize,
            ) + (if self.append_numeral {
                seq![10usize]
            } else {
                Seq::<usize>::empty()
            }) + (match self.append_symbol {
                Some(a) => seq![num_distinct(a@) as usize],
                None => Seq::<usize>::empty(),
            }) + seq![success_count],
            r.divisors@ == seq![sample_size],
            r.wf(),
    {
        let base = self.words_entropy().combine(self.numeral_entropy()).combine(
            self.symbol_entropy(),
        );
        let r = base.combine(crate::entropy::adjusted_entropy(sample_size, success_count));
        proof {
            assert(r.divisors@ =~= seq![sample_size]);
        }
        r
    }
}

impl Password {
    /// The numeral, if present, is a decimal digit.
    pub open spec fn wf(self) -> bool {
        self.numeral matches Some(d) ==> d < 10
    }

    /// The byte length of the password: word bytes, plus one byte for the
    /// numeral if present, plus the symbol's UTF-8 width if present.
    pub open spec fn spec_len(self) -> nat {
        words_byte_len(self.words@) + (if self.numeral is Some {
            1nat
        } else {
            0nat
        }) + (match self.symbol {
            Some(c) => spec_char_len(c),
            None => 0nat,
        })
    }

    /// The rendered text: the words in order, then the numeral as a
    /// decimal digit character, then the symbol.
    pub open spec fn render_spec(self) -> Seq<char> {
        concat_words(self.words@) + (match self.numeral {
            Some(d) => seq![digit_char(d as nat)],
            None => Seq::<char>::empty(),
        }) + (match self.symbol {
            Some(c) => seq![c],
            None => Seq::<char>::empty(),
        })
    }

    /// Render the password as text.
    pub fn render(&self) -> (r: String)
        requires
            self.wf(),
        ensures
            r@ == self.render_spec(),
    {
        let mut out = String::new();
        let k = self.words.len();
        for i in 0..k
            invariant
                k == self.words@.len(),
                out@ == concat_words(self.words@.take(i as int)),
        {
            out.append(self.words[i].as_str());
            proof {
                assert(self.words@.take(i + 1).drop_last() =~= self.words@.take(i as int));
                assert(self.words@.take(i + 1).last() == self.words@[i as int]);
            }
        }
        proof {
            assert(self.words@.take(k as int) =~= self.words@);
        }
        match self.numeral {
            Some(d) => {
                let c = digit_char_exec(d as usize);
                push_char(&mut out, c);
                proof {
                    assert(concat_words(self.words@) + seq![digit_char(d as nat)]
                        =~= concat_words(self.words@).push(digit_char(d as nat)));
                }
            },
            None => {
                proof {
                    assert(concat_words(self.words@) + Seq::<char>::empty() =~= concat_words(
                        self.words@,
                    ));
                }
            },
        }
        let ghost mid = concat_words(self.words@) + (match self.numeral {
            Some(d) => seq![digit_char(d as nat)],
            None => Seq::<char>::empty(),
        });
        match self.symbol {
            Some(c) => {
                push_char(&mut out, c);
                proof {
                    assert(mid + seq![c] =~= mid.push(c));
                }
            },
            None => {
                proof {
                    assert(mid + Seq::<char>::empty() =~= mid);
                }
            },
        }
        out
    }
}

/// Removing one word takes exactly its bytes out of the total.
proof fn lemma_words_byte_len_remove(ws: Seq<String>, j: int)
    requires
        0 <= j < ws.len(),
    ensures
        words_byte_len(ws.remove(j)) + spec_byte_len(ws[j]@) == words_byte_len(ws),
    decreases ws.len(),
{
    ws.remove_ensures(j);
    if j == ws.len() - 1 {
        assert(ws.remove(j) =~= ws.drop_last());
    } else {
        let r = ws.remove(j);
        assert(r.drop_last() =~= ws.drop_last().remove(j));
        assert(r.last() == ws.last());
        lemma_words_byte_len_remove(ws.drop_last(), j);
        assert(ws.drop_last()[j] == ws[j]);
    }
}

/// The bytes of any selection of distinct pool indices below `n` total at
/// most the bytes of the first `n` pool words.
proof fn lemma_selected_words_sum(pool: Seq<String>, idxs: Seq<usize>, n: int)
    requires
        idxs.no_duplicates(),
        forall|j: int| 0 <= j < idxs.len() ==> #[trigger] idxs[j] < n,
        0 <= n <= pool.len(),
    ensures
        words_byte_len(idxs.map_values(|i: usize| pool[i as int])) <= words_byte_len(pool.take(n)),
    decreases n,
{
    let f = |i: usize| pool[i as int];
    if n == 0 {
        if idxs.len() > 0 {
            assert(idxs[0] < 0);
        }
        assert(idxs.map_values(f).len() == 0);
    } else {
        assert(pool.take(n).drop_last() =~= pool.take(n - 1));
        assert(pool.take(n).last() == pool[n - 1]);
        if exists|j: int| 0 <= j < idxs.len() && idxs[j] == n - 1 {
            let j = choose|j: int| 0 <= j < idxs.len() && idxs[j] == n - 1;
            let rest = idxs.remove(j);
            idxs.remove_ensures(j);
            crate::selection::lemma_remove_no_dup(idxs, j);
            assert forall|m: int| 0 <= m < rest.len() implies #[trigger] rest[m] < n - 1 by {
                if m < j {
                    assert(rest[m] == idxs[m]);
                } else {
                    assert(rest[m] == idxs[m + 1]);
                }
                assert(idxs.contains(rest[m]));
                assert(!rest.contains(idxs[j]));
                assert(rest.contains(rest[m]));
            }
            lemma_selected_words_sum(pool, rest, n - 1);
            assert(rest.map_values(f) =~= idxs.map_values(f).remove(j));
            lemma_words_byte_len_remove(idxs.map_values(f), j);
            assert(idxs.map_values(f)[j] == f(idxs[j]));
        } else {
            assert(forall|j: int| 0 <= j < idxs.len() ==> #[trigger] idxs[j] < n - 1);
            lemma_selected_words_sum(pool, idxs, n - 1);
        }
    }
}

/// A character occupies at most four bytes in UTF-8.
proof fn lemma_char_len_le_4(c: char)
    ensures
        spec_char_len(c) <= 4,
{
    let u = c as u32;
    assert(encode_scalar(u).len() <= 4);
}

/// Any password the rules can produce is at most the whole pool's bytes
/// plus one numeral byte plus at most four symbol bytes long. In
/// particular its byte length fits in `usize` whenever the pool's total
/// does with five bytes to spare.
pub proof fn lemma_candidate_len_bound(rules: PasswordRules, p: Password)
    requires
        rules.can_produce(p),
    ensures
        p.spec_len() <= words_byte_len(rules.wordlist@) + 5,
{
    let pool = rules.wordlist@;
    let idxs = choose|idxs: Seq<usize>|
        distinct_selection(idxs, pool.len() as int, rules.num_words as int) && p.words@
            == idxs.map_values(|i: usize| pool[i as int]);
    lemma_selected_words_sum(pool, idxs, pool.len() as int);
    assert(pool.take(pool.len() as int) =~= pool);
    match p.symbol {
        Some(c) => lemma_char_len_le_4(c),
        None => {},
    }
}

/// The bytes of the rendered text are exactly the password's length:
/// rendering then measuring agrees with the length computed from the
/// parts.
pub proof fn lemma_render_len(p: Password)
    ensures
        spec_byte_len(p.render_spec()) == p.spec_len(),
{
    lemma_concat_words_bytes(p.words@);
    let words_part = concat_words(p.words@);
    let numeral_part: Seq<char> = match p.numeral {
        Some(d) => seq![digit_char(d as nat)],
        None => Seq::empty(),
    };
    let symbol_part: Seq<char> = match p.symbol {
        Some(c) => seq![c],
        None => Seq::empty(),
    };
    lemma_byte_len_add(words_part, numeral_part);
    lemma_byte_len_add(words_part + numeral_part, symbol_part);
    match p.numeral {
        Some(d) => {
            crate::strutil::lemma_byte_len_singleton(digit_char(d as nat));
            assert(spec_char_len(digit_char(d as nat)) == 1) by {
                assert(encode_scalar(digit_char(d as nat) as u32).len() == 1);
            }
        },
        None => {
            assert(spec_byte_len(Seq::<char>::empty()) == 0);
        },
    }
    match p.symbol {
        Some(c) => crate::strutil::lemma_byte_len_singleton(c),
        None => {
            assert(spec_byte_len(Seq::<char>::empty()) == 0);
        },
    }
}

/// The concatenated characters of the words occupy exactly the words'
/// total bytes.
proof fn lemma_concat_words_bytes(ws: Seq<String>)
    ensures
        spec_byte_len(concat_words(ws)) == words_byte_len(ws),
    decreases ws.len(),
{
    if ws.len() > 0 {
        lemma_concat_words_bytes(ws.drop_last());
        lemma_byte_len_add(concat_words(ws.drop_last()), ws.last()@);
    }
}

/// No password these rules produce repeats a word, provided the pool
/// itself holds no duplicate word.
pub proof fn lemma_no_repeated_words(rules: PasswordRules, p: Password)
    requires
        rules.can_produce(p),
        rules.wordlist@.no_duplicates(),
    ensures
        p.words@.no_duplicates(),
{
    let pool = rules.wordlist@;
    let f = |i: usize| pool[i as int];
    let idxs = choose|idxs: Seq<usize>|
        distinct_selection(idxs, pool.len() as int, rules.num_words as int) && p.words@
            == idxs.map_values(f);
    assert forall|j1: int, j2: int| 0 <= j1 < j2 < p.words@.len() implies p.words@[j1]
        != p.words@[j2] by {
        assert(p.words@[j1] == f(idxs[j1]) && p.words@[j2] == f(idxs[j2]));
        assert(idxs[j1] != idxs[j2]);
    }
}

/// A prefix of the words never has more bytes than all of them.
proof fn lemma_words_byte_len_prefix(ws: Seq<String>, i: int)
    requires
        0 <= i <= ws.len(),
    ensures
        words_byte_len(ws.take(i)) <= words_byte_len(ws),
    decreases ws.len() - i,
{
    if i < ws.len() {
        assert(ws.take(i + 1).drop_last() =~= ws.take(i));
        assert(ws.take(i + 1).last() == ws[i]);
        lemma_words_byte_len_prefix(ws, i + 1);
    } else {
        assert(ws.take(i) =~= ws);
    }
}

impl Len for Password {
    open spec fn spec_len(&self) -> nat {
        Password::spec_len(*self)
    }

    open spec fn len_wf(&self) -> bool {
        Password::spec_len(*self) <= usize::MAX
    }

    fn len(&self) -> (r: usize) {
        let mut total: usize = 0;
        let k = self.words.len();
        for i in 0..k
            invariant
                k == self.words@.len(),
                total == words_byte_len(self.words@.take(i as int)),
                Password::spec_len(*self) <= usize::MAX,
        {
            proof {
                assert(self.words@.take(i + 1).drop_last() =~= self.words@.take(i as int));
                assert(self.words@.take(i + 1).last() == self.words@[i as int]);
                lemma_words_byte_len_prefix(self.words@, i + 1);
            }
            let w = str_byte_len(self.words[i].as_str());
            total = total + w;
        }
        proof {
            assert(self.words@.take(k as int) =~= self.words@);
        }
        if self.numeral.is_some() {
            total = total + 1;
        }
        match self.symbol {
            Some(c) => {
                let w = char_byte_len(c);
                total = total + w;
            },
            None => {},
        }
        total
    }
}

} // verus!
