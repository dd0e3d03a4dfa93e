//! Word pools and where they come from: a built-in named list, or a text
//! blob split into lines, trimmed, and stripped of blanks and `#`-comments.

use vstd::prelude::*;
use vstd::string::{StrSliceExecFns, StringExecFns};

use crate::strutil::{
    is_space, lemma_leading_spaces_is, lemma_trailing_spaces_is, space_char, spec_byte_len,
    trim_spec,
};
use crate::util::Bounds;

verus! {

/// The pieces of `s` between newline characters: one more piece than
/// there are `'\n'` characters, in order, never empty as a list.
pub open spec fn split_lines(s: Seq<char>) -> Seq<Seq<char>>
    decreases s.len(),
{
    if s.len() == 0 {
        seq![Seq::<char>::empty()]
    } else {
        let r = split_lines(s.drop_last());
        if s.last() == '\n' {
            r.push(Seq::<char>::empty())
        } else {
            r.update(r.len() - 1, r.last().push(s.last()))
        }
    }
}

/// A trimmed line that survives filtering: non-empty and no `#`-comment.
pub open spec fn kept_line(t: Seq<char>) -> bool {
    t.len() > 0 && t[0] != '#'
}

/// Lines after trimming and filtering: what a sequence of raw pieces
/// contributes to the pool, in order.
pub open spec fn cleaned_lines(pieces: Seq<Seq<char>>) -> Seq<Seq<char>>
    decreases pieces.len(),
{
    if pieces.len() == 0 {
        Seq::empty()
    } else {
        let rest = cleaned_lines(pieces.drop_last());
        let t = trim_spec(pieces.last());
        if kept_line(t) {
            rest.push(t)
        } else {
            rest
        }
    }
}

/// The words a text blob yields: its lines, trimmed, without blank lines
/// and without `#`-comment lines.
pub open spec fn parse_words_spec(s: Seq<char>) -> Seq<Seq<char>> {
    cleaned_lines(split_lines(s))
}

/// Splitting yields at least one piece.
proof fn lemma_split_lines_nonempty(s: Seq<char>)
    ensures
        split_lines(s).len() >= 1,
    decreases s.len(),
{
    if s.len() > 0 {
        lemma_split_lines_nonempty(s.drop_last());
    }
}

/// Trim the piece `s[lo..hi]` and keep it if it is a word line: the
/// handling of one raw line.
fn parse_line(s: &str, lo: usize, hi: usize) -> (r: Option<String>)
    requires
        lo <= hi <= s@.len(),
    ensures
        ({
            let t = trim_spec(s@.subrange(lo as int, hi as int));
            &&& (r matches Some(w) ==> w@ == t && kept_line(t))
            &&& (r is None ==> !kept_line(t))
        }),
{
    let pc = s.substring_char(lo, hi);
    let m = hi - lo;
    proof {
        assert(pc@.len() == m);
    }
    let mut a: usize = 0;
    while a < m && space_char(pc.get_char(a))
        invariant
            a <= m,
            m == pc@.len(),
            forall|j: int| 0 <= j < a ==> is_space(#[trigger] pc@[j]),
        decreases m - a,
    {
        a = a + 1;
    }
    let mut b: usize = m;
    while b > a && space_char(pc.get_char(b - 1))
        invariant
            a <= b <= m,
            m == pc@.len(),
            forall|j: int| b <= j < m ==> is_space(#[trigger] pc@[j]),
        decreases b,
    {
        b = b - 1;
    }
    proof {
        lemma_leading_spaces_is(pc@, a as int);
        let rest = pc@.skip(a as int);
        assert(forall|j: int|
            rest.len() - (m - b) <= j < rest.len() ==> #[trigger] rest[j] == pc@[j + a]);
        if b > a {
            assert(rest[b - a - 1] == pc@[b - 1]);
        }
        lemma_trailing_spaces_is(rest, (m - b) as int);
        assert(trim_spec(pc@) =~= pc@.subrange(a as int, b as int));
    }
    if b > a {
        let c0 = pc.get_char(a);
        if c0 != '#' {
            let w = String::from_str(pc.substring_char(a, b));
            return Some(w);
        }
    }
    None
}

/// Split a text blob into the pool words it holds: lines, trimmed, with
/// blank lines and `#`-comment lines dropped.
pub fn parse_words(s: &str) -> (r: Vec<String>)
    ensures
        r.deep_view() == parse_words_spec(s@),
{
    let n = s.unicode_len();
    let mut out: Vec<String> = Vec::new();
    let mut start: usize = 0;
    for i in 0..n
        invariant
            n == s@.len(),
            start <= i <= n,
            split_lines(s@.take(i as int)).last() == s@.subrange(start as int, i as int),
            out.deep_view() == cleaned_lines(split_lines(s@.take(i as int)).drop_last()),
    {
        let ghost pre = split_lines(s@.take(i as int));
        proof {
            lemma_split_lines_nonempty(s@.take(i as int));
            assert(s@.take(i + 1).drop_last() =~= s@.take(i as int));
            assert(s@.take(i + 1).last() == s@[i as int]);
        }
        let c = s.get_char(i);
        if c == '\n' {
            proof {
                assert(split_lines(s@.take(i + 1)) == pre.push(Seq::<char>::empty()));
                assert(pre.push(Seq::<char>::empty()).drop_last() =~= pre);
                assert(pre =~= pre.drop_last().push(pre.last()));
            }
            match parse_line(s, start, i) {
                Some(w) => {
                    let ghost old_deep = out.deep_view();
                    out.push(w);
                    proof {
                        assert(out.deep_view() =~= old_deep.push(w@));
                        lemma_cleaned_push(pre.drop_last(), pre.last());
                    }
                },
                None => {
                    proof {
                        lemma_cleaned_push(pre.drop_last(), pre.last());
                    }
                },
            }
            start = i + 1;
            proof {
                assert(split_lines(s@.take(i + 1)).last() =~= s@.subrange(
                    (i + 1) as int,
                    (i + 1) as int,
                ));
            }
        } else {
            proof {
                assert(split_lines(s@.take(i + 1)) == pre.update(
                    pre.len() - 1,
                    pre.last().push(s@[i as int]),
                ));
                assert(split_lines(s@.take(i + 1)).drop_last() =~= pre.drop_last());
                assert(split_lines(s@.take(i + 1)).last() =~= s@.subrange(
                    start as int,
                    (i + 1) as int,
                ));
            }
        }
    }
    let ghost full = split_lines(s@);
    proof {
        assert(s@.take(n as int) =~= s@);
        lemma_split_lines_nonempty(s@);
        assert(full =~= full.drop_last().push(full.last()));
    }
    match parse_line(s, start, n) {
        Some(w) => {
            let ghost old_deep = out.deep_view();
            out.push(w);
            proof {
                assert(out.deep_view() =~= old_deep.push(w@));
                lemma_cleaned_push(full.drop_last(), full.last());
            }
        },
        None => {
            proof {
                lemma_cleaned_push(full.drop_last(), full.last());
            }
        },
    }
    out
}

/// Cleaning one more piece keeps the cleaned prefix and appends the
/// trimmed piece exactly when it is a word line.
proof fn lemma_cleaned_push(pieces: Seq<Seq<char>>, p: Seq<char>)
    ensures
        cleaned_lines(pieces.push(p)) == if kept_line(trim_spec(p)) {
            cleaned_lines(pieces).push(trim_spec(p))
        } else {
            cleaned_lines(pieces)
        },
{
    assert(pieces.push(p).drop_last() =~= pieces);
    assert(pieces.push(p).last() == p);
}

/// A clone of a vector of strings holds the same strings.
proof fn lemma_vec_string_clone(v: Seq<String>, c: Seq<String>)
    requires
        c.len() == v.len(),
        forall|i: int| 0 <= i < v.len() ==> vstd::pervasive::cloned::<String>(v[i], c[i]),
    ensures
        c == v,
{
    assert forall|i: int| 0 <= i < v.len() implies c[i] == v[i] by {
        assert(vstd::pervasive::cloned::<String>(v[i], c[i]));
    }
    assert(c =~= v);
}

/// The words of the built-in list, most common first.
pub open spec fn default_words() -> Seq<Seq<char>> {
    seq![
        "acorn"@,
        "amber"@,
        "basil"@,
        "birch"@,
        "bloom"@,
        "brave"@,
        "brisk"@,
        "cedar"@,
        "charm"@,
        "cloud"@,
        "coral"@,
        "crisp"@,
        "delta"@,
        "drift"@,
        "ember"@,
        "fable"@,
        "flint"@,
        "gleam"@,
        "grove"@,
        "haven"@,
        "ivory"@,
        "lilac"@,
        "maple"@,
        "marsh"@,
        "noble"@,
        "ocean"@,
        "olive"@,
        "pearl"@,
        "quill"@,
        "raven"@,
        "ridge"@,
        "slate"@,
    ]
}

/// Where a word pool's text lives: a built-in list, or a text blob read
/// by the caller at run time.
#[derive(Debug, Clone)]
pub enum WordlistStorage {
    Static(Vec<String>),
    Runtime(String),
}

/// A word pool ready for filtering: the list either came built-in or was
/// parsed out of a runtime blob.
#[derive(Debug, Clone)]
pub enum Wordlist {
    Static(Vec<String>),
    Runtime(Vec<String>),
}

impl WordlistStorage {
    /// Look a built-in word list up by name.
    pub fn from_name(name: &str) -> (r: Option<WordlistStorage>)
        ensures
            r is Some <==> name@ == "default"@,
            r matches Some(st) ==> st matches WordlistStorage::Static(v) && v.deep_view()
                == default_words(),
    {
        if String::from_str(name) == String::from_str("default") {
            Some(WordlistStorage::Static(default_word_vec()))
        } else {
            None
        }
    }

    /// Hold a text blob, read from a stream by the caller, for parsing.
    pub fn from_stream(contents: String) -> (r: WordlistStorage)
        ensures
            r == WordlistStorage::Runtime(contents),
    {
        WordlistStorage::Runtime(contents)
    }

    /// The word pool this storage yields: a built-in list as it stands, a
    /// runtime blob parsed line by line.
    pub fn as_wordlist(&self) -> (r: Wordlist)
        ensures
            self matches WordlistStorage::Static(v) ==> r matches Wordlist::Static(w) && w@ == v@,
            self matches WordlistStorage::Runtime(blob) ==> r matches Wordlist::Runtime(w)
                && w.deep_view() == parse_words_spec(blob@),
    {
        match self {
            WordlistStorage::Static(list) => {
                let c = list.clone();
                proof {
                    lemma_vec_string_clone(list@, c@);
                }
                Wordlist::Static(c)
            },
            WordlistStorage::Runtime(blob) => Wordlist::Runtime(parse_words(blob.as_str())),
        }
    }
}

impl Wordlist {
    /// The words of the pool, in order.
    pub open spec fn words(self) -> Seq<String> {
        match self {
            Wordlist::Static(v) => v@,
            Wordlist::Runtime(v) => v@,
        }
    }

    /// The words as a slice.
    pub fn as_slice(&self) -> (r: &[String])
        ensures
            r@ == self.words(),
    {
        match self {
            Wordlist::Static(list) => list.as_slice(),
            Wordlist::Runtime(list) => list.as_slice(),
        }
    }

    /// The words as an owned vector.
    pub fn iter(&self) -> (r: Vec<String>)
        ensures
            r@ == self.words(),
    {
        let c = match self {
            Wordlist::Static(list) => list.clone(),
            Wordlist::Runtime(list) => list.clone(),
        };
        proof {
            lemma_vec_string_clone(self.words(), c@);
        }
        c
    }
}

/// Build the built-in word list.
fn default_word_vec() -> (r: Vec<String>)
    ensures
        r.deep_view() == default_words(),
{
    let mut v: Vec<String> = Vec::new();
    v.push(String::from_str("acorn"));
    v.push(String::from_str("amber"));
    v.push(String::from_str("basil"));
    v.push(String::from_str("birch"));
    v.push(String::from_str("bloom"));
    v.push(String::from_str("brave"));
    v.push(String::from_str("brisk"));
    v.push(String::from_str("cedar"));
    v.push(String::from_str("charm"));
    v.push(String::from_str("cloud"));
    v.push(String::from_str("coral"));
    v.push(String::from_str("crisp"));
    v.push(String::from_str("delta"));
    v.push(String::from_str("drift"));
    v.push(String::from_str("ember"));
    v.push(String::from_str("fable"));
    v.push(String::from_str("flint"));
    v.push(String::from_str("gleam"));
    v.push(String::from_str("grove"));
    v.push(String::from_str("haven"));
    v.push(String::from_str("ivory"));
    v.push(String::from_str("lilac"));
    v.push(String::from_str("maple"));
    v.push(String::from_str("marsh"));
    v.push(String::from_str("noble"));
    v.push(String::from_str("ocean"));
    v.push(String::from_str("olive"));
    v.push(String::from_str("pearl"));
    v.push(String::from_str("quill"));
    v.push(String::from_str("raven"));
    v.push(String::from_str("ridge"));
    v.push(String::from_str("slate"));
    proof {
        assert(v.deep_view() =~= default_words());
    }
    v
}

/// The words whose byte length the bounds accept, in order.
pub open spec fn length_filtered(ws: Seq<String>, b: Bounds) -> Seq<String>
    decreases ws.len(),
{
    if ws.len() == 0 {
        Seq::empty()
    } else {
        let rest = length_filtered(ws.drop_last(), b);
        if b.spec_contains(spec_byte_len(ws.last()@)) {
            rest.push(ws.last())
        } else {
            rest
        }
    }
}

/// The first `k` entries, or all of them when there are fewer.
pub open spec fn prefix_upto<A>(s: Seq<A>, k: int) -> Seq<A> {
    if k < s.len() {
        s.take(k)
    } else {
        s
    }
}

/// Filter a pool: keep the words whose byte length the word bounds
/// accept, truncated to the `top` most common (the pool is ordered most
/// common first).
pub fn filter_wordlist(words: &[String], word_bounds: Bounds, top: usize) -> (r: Vec<String>)
    ensures
        r@ == prefix_upto(length_filtered(words@, word_bounds), top as int),
{
    let n = words.len();
    let mut out: Vec<String> = Vec::new();
    for i in 0..n
        invariant
            n == words@.len(),
            out@.len() <= top,
            out@ == prefix_upto(length_filtered(words@.take(i as int), word_bounds), top as int),
    {
        let ghost lf = length_filtered(words@.take(i as int), word_bounds);
        proof {
            assert(words@.take(i + 1).drop_last() =~= words@.take(i as int));
            assert(words@.take(i + 1).last() == words@[i as int]);
        }
        let wlen = crate::strutil::str_byte_len(words[i].as_str());
        if wlen >= word_bounds.min && wlen <= word_bounds.max {
            let ghost lf1 = lf.push(words@[i as int]);
            if out.len() < top {
                proof {
                    if top < lf.len() {
                        assert(out@.len() == top);
                    }
                    assert(out@ == lf);
                }
                let w = words[i].clone();
                out.push(w);
                proof {
                    assert(out@ =~= lf1);
                    assert(prefix_upto(lf1, top as int) == lf1);
                }
            } else {
                proof {
                    if top < lf.len() {
                        assert(lf1.take(top as int) =~= lf.take(top as int));
                    } else {
                        assert(lf.len() == top);
                        assert(lf1.take(top as int) =~= lf);
                    }
                }
            }
        }
    }
    proof {
        assert(words@.take(n as int) =~= words@);
    }
    out
}

} // verus!
