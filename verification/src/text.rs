//! Text primitives on which the rest of the library is written.
//!
//! Every function here is specified over the sequence of characters of a text.

use vstd::prelude::*;
use vstd::utf8::*;

verus! {

// ---------------------------------------------------------------------------
// Standard library
// ---------------------------------------------------------------------------

/// `String::push` appends one character.
pub assume_specification[ String::push ](s: &mut String, c: char)
    ensures
        final(s)@ == old(s)@.push(c),
;

/// `String::push_str` appends a text.
pub assume_specification[ String::push_str ](s: &mut String, t: &str)
    ensures
        final(s)@ == old(s)@ + t@,
;

/// `core::str::from_utf8` accepts exactly the well-formed UTF-8 byte sequences,
/// and the text that it hands out is encoded by those bytes.
#[verifier::external_body]
pub(crate) fn utf8_text(v: &[u8]) -> (r: Option<&str>)
    ensures
        r is Some <==> valid_utf8(v@),
        r matches Some(s) ==> encode_utf8(s@) == v@,
{
    core::str::from_utf8(v).ok()
}

/// A text in quotation marks, with the escapes of its `Debug` form.
pub uninterp spec fn quoted(s: Seq<char>) -> Seq<char>;

/// The `Debug` form of `str`, which depends on the text alone.
#[verifier::external_body]
pub(crate) fn quote(s: &str) -> (r: String)
    ensures
        r@ == quoted(s@),
{
    format!("{:?}", s)
}

/// The words with which `String::from_utf8` refuses bytes that are no UTF-8 text.
pub uninterp spec fn utf8_fault(v: Seq<u8>) -> Seq<char>;

/// `String::from_utf8`: the text of bytes that are valid UTF-8. What it says of other
/// bytes depends on the bytes alone.
#[verifier::external_body]
pub(crate) fn utf8_string(v: Vec<u8>) -> (r: Result<String, String>)
    ensures
        match r {
            Ok(s) => valid_utf8(v@) && encode_utf8(s@) == v@,
            Err(e) => !valid_utf8(v@) && e@ == utf8_fault(v@),
        },
{
    String::from_utf8(v).map_err(|e| e.to_string())
}

/// What `str::to_lowercase` makes of a text.
pub uninterp spec fn lowercase(s: Seq<char>) -> Seq<char>;

/// The lower-case form of an ASCII character.
pub open spec fn ascii_lower(c: char) -> char {
    if 'A' <= c && c <= 'Z' {
        (c as u32 + 32) as char
    } else {
        c
    }
}

/// `str::to_lowercase` follows the Unicode case tables, which are only named here.
/// On an ASCII text it changes `A` to `Z` into `a` to `z` and nothing else.
#[verifier::external_body]
pub(crate) fn to_lowercase(s: &str) -> (r: String)
    ensures
        r@ == lowercase(s@),
        is_ascii_chars(s@) ==> r@ == s@.map_values(|c: char| ascii_lower(c)),
{
    s.to_lowercase()
}

// ---------------------------------------------------------------------------
// Characters and texts
// ---------------------------------------------------------------------------

/// The characters of a text, in order.
pub fn chars_of(s: &str) -> (r: Vec<char>)
    ensures
        r@ == s@,
{
    let mut out: Vec<char> = Vec::new();
    for c in it: s.chars()
        invariant
            out@ == s@.take(it.index() as int),
            it.seq() == s@,
    {
        out.push(c);
        assert(s@.take(it.index() + 1) =~= s@.take(it.index() as int).push(c));
    }
    assert(s@.take(s@.len() as int) =~= s@);
    out
}

/// The text made of the given characters.
pub fn string_of(v: &[char]) -> (r: String)
    ensures
        r@ == v@,
{
    let mut out = String::new();
    let mut i: usize = 0;
    while i < v.len()
        invariant
            i <= v@.len(),
            out@ == v@.take(i as int),
        decreases v@.len() - i,
    {
        out.push(v[i]);
        assert(v@.take(i + 1) =~= v@.take(i as int).push(v@[i as int]));
        i += 1;
    }
    assert(v@.take(v@.len() as int) =~= v@);
    out
}

/// Whether two texts hold the same characters.
pub fn same_text(a: &str, b: &str) -> (r: bool)
    ensures
        r == (a@ == b@),
{
    a.to_owned() == b.to_owned()
}

/// The concatenation of two texts.
pub fn concat(a: &str, b: &str) -> (r: String)
    ensures
        r@ == a@ + b@,
{
    let mut out = a.to_owned();
    out.push_str(b);
    out
}

/// A copy of the characters from `from` up to, but not including, `to`.
pub(crate) fn slice_chars(v: &[char], from: usize, to: usize) -> (r: Vec<char>)
    requires
        from <= to <= v@.len(),
    ensures
        r@ == v@.subrange(from as int, to as int),
{
    let mut out: Vec<char> = Vec::new();
    let mut i: usize = from;
    while i < to
        invariant
            from <= i <= to <= v@.len(),
            out@ == v@.subrange(from as int, i as int),
        decreases to - i,
    {
        out.push(v[i]);
        assert(v@.subrange(from as int, i + 1) =~= v@.subrange(from as int, i as int).push(
            v@[i as int],
        ));
        i += 1;
    }
    out
}

// ---------------------------------------------------------------------------
// White space
// ---------------------------------------------------------------------------

/// The characters with the Unicode property `White_Space`.
pub open spec fn whitespace(c: char) -> bool {
    ||| '\u{9}' <= c && c <= '\u{d}'
    ||| c == '\u{20}'
    ||| c == '\u{85}'
    ||| c == '\u{a0}'
    ||| c == '\u{1680}'
    ||| '\u{2000}' <= c && c <= '\u{200a}'
    ||| c == '\u{2028}'
    ||| c == '\u{2029}'
    ||| c == '\u{202f}'
    ||| c == '\u{205f}'
    ||| c == '\u{3000}'
}

/// Whether a character is white space.
pub fn is_whitespace(c: char) -> (r: bool)
    ensures
        r == whitespace(c),
{
    ('\u{9}' <= c && c <= '\u{d}') || c == '\u{20}' || c == '\u{85}' || c == '\u{a0}' || c
        == '\u{1680}' || ('\u{2000}' <= c && c <= '\u{200a}') || c == '\u{2028}' || c == '\u{2029}'
        || c == '\u{202f}' || c == '\u{205f}' || c == '\u{3000}'
}

/// A text without its trailing white space.
pub open spec fn trimmed_end(s: Seq<char>) -> Seq<char>
    decreases s.len(),
{
    if s.len() > 0 && whitespace(s.last()) {
        trimmed_end(s.drop_last())
    } else {
        s
    }
}

/// A text without its leading white space.
pub open spec fn trimmed_start(s: Seq<char>) -> Seq<char>
    decreases s.len(),
{
    if s.len() > 0 && whitespace(s.first()) {
        trimmed_start(s.drop_first())
    } else {
        s
    }
}

/// A text without the white space around it.
pub open spec fn trimmed(s: Seq<char>) -> Seq<char> {
    trimmed_end(trimmed_start(s))
}

/// A text without trailing occurrences of `c`.
pub open spec fn trimmed_end_of(s: Seq<char>, c: char) -> Seq<char>
    decreases s.len(),
{
    if s.len() > 0 && s.last() == c {
        trimmed_end_of(s.drop_last(), c)
    } else {
        s
    }
}

/// Removes trailing white space.
pub fn trim_end_chars(v: &[char]) -> (r: Vec<char>)
    ensures
        r@ == trimmed_end(v@),
{
    let mut end: usize = v.len();
    assert(v@.take(end as int) =~= v@);
    while end > 0 && is_whitespace(v[end - 1])
        invariant
            end <= v@.len(),
            trimmed_end(v@.take(end as int)) == trimmed_end(v@),
        decreases end,
    {
        assert(v@.take(end as int).drop_last() =~= v@.take(end - 1));
        assert(v@.take(end as int).last() == v@[end - 1]);
        end -= 1;
    }
    let r = slice_chars(v, 0, end);
    proof {
        assert(r@ =~= v@.take(end as int));
        if end > 0 {
            assert(v@.take(end as int).last() == v@[end - 1]);
        }
    }
    r
}

/// Removes leading white space.
pub fn trim_start_chars(v: &[char]) -> (r: Vec<char>)
    ensures
        r@ == trimmed_start(v@),
{
    let mut start: usize = 0;
    assert(v@.skip(0) =~= v@);
    while start < v.len() && is_whitespace(v[start])
        invariant
            start <= v@.len(),
            trimmed_start(v@.skip(start as int)) == trimmed_start(v@),
        decreases v@.len() - start,
    {
        assert(v@.skip(start as int).drop_first() =~= v@.skip(start + 1));
        assert(v@.skip(start as int).first() == v@[start as int]);
        start += 1;
    }
    let r = slice_chars(v, start, v.len());
    proof {
        assert(r@ =~= v@.skip(start as int));
        if start < v@.len() {
            assert(v@.skip(start as int).first() == v@[start as int]);
        }
    }
    r
}

/// Removes the white space around a text.
pub fn trim_chars(v: &[char]) -> (r: Vec<char>)
    ensures
        r@ == trimmed(v@),
{
    let s = trim_start_chars(v);
    trim_end_chars(s.as_slice())
}

/// Removes the white space around a text.
pub fn trim(s: &str) -> (r: String)
    ensures
        r@ == trimmed(s@),
{
    let v = chars_of(s);
    let t = trim_chars(v.as_slice());
    string_of(t.as_slice())
}

/// Removes trailing occurrences of `c`.
pub fn trim_end_matches(s: &str, c: char) -> (r: String)
    ensures
        r@ == trimmed_end_of(s@, c),
{
    let v = chars_of(s);
    let mut end: usize = v.len();
    assert(v@.take(end as int) =~= v@);
    while end > 0 && v[end - 1] == c
        invariant
            end <= v@.len(),
            trimmed_end_of(v@.take(end as int), c) == trimmed_end_of(v@, c),
        decreases end,
    {
        assert(v@.take(end as int).drop_last() =~= v@.take(end - 1));
        assert(v@.take(end as int).last() == v@[end - 1]);
        end -= 1;
    }
    let t = slice_chars(v.as_slice(), 0, end);
    proof {
        assert(t@ =~= v@.take(end as int));
        if end > 0 {
            assert(v@.take(end as int).last() == v@[end - 1]);
        }
    }
    string_of(t.as_slice())
}

// ---------------------------------------------------------------------------
// Searching
// ---------------------------------------------------------------------------

/// Whether `s` begins with `p`.
pub open spec fn begins_with(s: Seq<char>, p: Seq<char>) -> bool {
    p.len() <= s.len() && s.take(p.len() as int) == p
}

/// Whether `n` occurs in `s` at position `i`.
pub open spec fn occurs_at(s: Seq<char>, n: Seq<char>, i: int) -> bool {
    0 <= i && i + n.len() <= s.len() && s.subrange(i, i + n.len()) == n
}

/// Whether `n` occurs somewhere in `s`.
pub open spec fn contains_text(s: Seq<char>, n: Seq<char>) -> bool {
    exists|i: int| #[trigger] occurs_at(s, n, i)
}

/// Whether `n` occurs in `v` at position `at`.
pub(crate) fn matches_at(v: &[char], at: usize, n: &[char]) -> (r: bool)
    requires
        at <= v@.len(),
    ensures
        r == occurs_at(v@, n@, at as int),
{
    if n.len() > v.len() - at {
        return false;
    }
    let mut i: usize = 0;
    while i < n.len()
        invariant
            i <= n@.len(),
            at + n@.len() <= v@.len() <= usize::MAX,
            forall|j: int| 0 <= j < i ==> v@[at + j] == n@[j],
        decreases n@.len() - i,
    {
        if v[at + i] != n[i] {
            assert(v@.subrange(at as int, at + n@.len())[i as int] != n@[i as int]);
            return false;
        }
        i += 1;
    }
    assert(v@.subrange(at as int, at + n@.len()) =~= n@);
    true
}

/// Whether `s` begins with `p`.
pub fn starts_with(s: &str, p: &str) -> (r: bool)
    ensures
        r == begins_with(s@, p@),
{
    let v = chars_of(s);
    let n = chars_of(p);
    let r = matches_at(v.as_slice(), 0, n.as_slice());
    proof {
        if p@.len() <= s@.len() {
            assert(s@.subrange(0, p@.len() as int) =~= s@.take(p@.len() as int));
        }
    }
    r
}

/// Whether `n` occurs in `s`.
pub fn contains(s: &str, n: &str) -> (r: bool)
    ensures
        r == contains_text(s@, n@),
{
    let v = chars_of(s);
    let p = chars_of(n);
    let mut i: usize = 0;
    while i < v.len()
        invariant
            i <= v@.len(),
            v@ == s@,
            p@ == n@,
            forall|j: int| 0 <= j < i ==> !occurs_at(s@, n@, j),
        decreases v@.len() - i,
    {
        if matches_at(v.as_slice(), i, p.as_slice()) {
            return true;
        }
        i += 1;
    }
    matches_at(v.as_slice(), i, p.as_slice())
}

/// The part of `s` before the first occurrence of `c`, and the part behind it.
pub open spec fn split_at_first(s: Seq<char>, c: char) -> Option<(Seq<char>, Seq<char>)>
    decreases s.len(),
{
    if s.len() == 0 {
        None
    } else if s[0] == c {
        Some((Seq::empty(), s.skip(1)))
    } else {
        match split_at_first(s.skip(1), c) {
            Some((a, b)) => Some((seq![s[0]] + a, b)),
            None => None,
        }
    }
}

/// Splitting at a character that stands behind a part without it.
pub proof fn lemma_split_at_first(a: Seq<char>, c: char, b: Seq<char>)
    requires
        !a.contains(c),
    ensures
        split_at_first(a + seq![c] + b, c) == Some((a, b)),
    decreases a.len(),
{
    let s = a + seq![c] + b;
    if a.len() == 0 {
        assert(s[0] == c);
        assert(s.skip(1) =~= b);
        assert(a =~= Seq::empty());
    } else {
        assert(a.contains(a[0]));
        assert(s[0] == a[0]);
        assert(s.skip(1) =~= a.skip(1) + seq![c] + b);
        assert forall|x: char| a.skip(1).contains(x) implies a.contains(x) by {
            let i = choose|i: int| 0 <= i < a.skip(1).len() && a.skip(1)[i] == x;
            assert(a[i + 1] == x);
        }
        lemma_split_at_first(a.skip(1), c, b);
        assert(seq![s[0]] + a.skip(1) =~= a);
    }
}

/// There is nothing to split at in a text without the character.
pub proof fn lemma_split_at_first_none(s: Seq<char>, c: char)
    ensures
        split_at_first(s, c) is None <==> !s.contains(c),
    decreases s.len(),
{
    if s.len() > 0 {
        lemma_split_at_first_none(s.skip(1), c);
        if s.contains(c) && s[0] != c {
            let i = choose|i: int| 0 <= i < s.len() && s[i] == c;
            assert(s.skip(1)[i - 1] == c);
        }
        if s.skip(1).contains(c) {
            let i = choose|i: int| 0 <= i < s.skip(1).len() && s.skip(1)[i] == c;
            assert(s[i + 1] == c);
        }
        if s[0] == c {
            assert(s.contains(c));
        }
    }
}

/// Splits at the first occurrence of `c`.
pub fn split_once(s: &str, c: char) -> (r: Option<(String, String)>)
    ensures
        match r {
            Some((a, b)) => split_at_first(s@, c) == Some((a@, b@)),
            None => split_at_first(s@, c) is None,
        },
{
    let v = chars_of(s);
    let mut i: usize = 0;
    while i < v.len()
        invariant
            i <= v@.len(),
            v@ == s@,
            !v@.take(i as int).contains(c),
        decreases v@.len() - i,
    {
        if v[i] == c {
            let a = slice_chars(v.as_slice(), 0, i);
            let b = slice_chars(v.as_slice(), i + 1, v.len());
            proof {
                assert(a@ =~= v@.take(i as int));
                assert(s@ =~= a@ + seq![c] + b@);
                lemma_split_at_first(a@, c, b@);
            }
            return Some((string_of(a.as_slice()), string_of(b.as_slice())));
        }
        proof {
            assert forall|k: int| 0 <= k < i + 1 implies #[trigger] v@.take(i + 1)[k] != c by {
                if k < i {
                    assert(v@.take(i as int)[k] == v@[k]);
                    assert(v@.take(i as int).contains(v@[k]));
                }
            }
        }
        i += 1;
    }
    proof {
        assert(v@.take(i as int) =~= s@);
        lemma_split_at_first_none(s@, c);
    }
    None
}

/// The texts before and behind the first white space of `s`.
pub open spec fn split_at_white(s: Seq<char>) -> Option<(Seq<char>, Seq<char>)>
    decreases s.len(),
{
    if s.len() == 0 {
        None
    } else if whitespace(s[0]) {
        Some((Seq::empty(), s.skip(1)))
    } else {
        match split_at_white(s.skip(1)) {
            Some((a, b)) => Some((seq![s[0]] + a, b)),
            None => None,
        }
    }
}

/// Whether a text holds no white space.
pub open spec fn no_white(s: Seq<char>) -> bool {
    forall|i: int| 0 <= i < s.len() ==> !whitespace(#[trigger] s[i])
}

pub proof fn lemma_split_at_white(a: Seq<char>, w: char, b: Seq<char>)
    requires
        no_white(a),
        whitespace(w),
    ensures
        split_at_white(a + seq![w] + b) == Some((a, b)),
    decreases a.len(),
{
    let s = a + seq![w] + b;
    if a.len() == 0 {
        assert(s.skip(1) =~= b);
        assert(a =~= Seq::empty());
    } else {
        assert(s[0] == a[0]);
        assert(s.skip(1) =~= a.skip(1) + seq![w] + b);
        assert(no_white(a.skip(1)));
        lemma_split_at_white(a.skip(1), w, b);
        assert(seq![s[0]] + a.skip(1) =~= a);
    }
}

pub proof fn lemma_split_at_white_none(s: Seq<char>)
    requires
        no_white(s),
    ensures
        split_at_white(s) is None,
    decreases s.len(),
{
    if s.len() > 0 {
        assert(no_white(s.skip(1)));
        lemma_split_at_white_none(s.skip(1));
    }
}

/// Splits a text at its first white space.
pub fn split_white(v: &[char]) -> (r: Option<(Vec<char>, Vec<char>)>)
    ensures
        match r {
            Some((a, b)) => split_at_white(v@) == Some((a@, b@)),
            None => split_at_white(v@) is None,
        },
{
    let n: usize = v.len();
    let mut i: usize = 0;
    while i < n
        invariant
            i <= n == v@.len(),
            forall|j: int| 0 <= j < i ==> !whitespace(#[trigger] v@[j]),
        decreases v@.len() - i,
    {
        if is_whitespace(v[i]) {
            let a = slice_chars(v, 0, i);
            let b = slice_chars(v, i + 1, n);
            proof {
                assert(v@ =~= a@ + seq![v@[i as int]] + b@);
                lemma_split_at_white(a@, v@[i as int], b@);
            }
            return Some((a, b));
        }
        i += 1;
    }
    proof {
        lemma_split_at_white_none(v@);
    }
    None
}

/// The parts of a text between the separators `a` and `b`.
pub open spec fn split_parts(s: Seq<char>, a: char, b: char) -> Seq<Seq<char>>
    decreases s.len(),
{
    if s.len() == 0 {
        seq![Seq::empty()]
    } else {
        let front = split_parts(s.drop_last(), a, b);
        if s.last() == a || s.last() == b {
            front.push(Seq::empty())
        } else {
            front.drop_last().push(front.last().push(s.last()))
        }
    }
}

/// Splitting gives at least one part.
pub proof fn lemma_split_parts_nonempty(s: Seq<char>, a: char, b: char)
    ensures
        split_parts(s, a, b).len() > 0,
    decreases s.len(),
{
    if s.len() > 0 {
        lemma_split_parts_nonempty(s.drop_last(), a, b);
    }
}

/// The views of a list of character lists.
pub open spec fn views(v: Seq<Vec<char>>) -> Seq<Seq<char>> {
    v.map_values(|x: Vec<char>| x@)
}

/// Splits at every occurrence of `a` and of `b`.
pub fn split_chars(v: &[char], a: char, b: char) -> (r: Vec<Vec<char>>)
    ensures
        views(r@) == split_parts(v@, a, b),
        r@.len() > 0,
{
    let mut done: Vec<Vec<char>> = Vec::new();
    let mut cur: Vec<char> = Vec::new();
    let mut i: usize = 0;
    assert(v@.take(0) =~= Seq::<char>::empty());
    assert(views(done@).push(cur@) =~= seq![Seq::<char>::empty()]);
    while i < v.len()
        invariant
            i <= v@.len(),
            views(done@).push(cur@) == split_parts(v@.take(i as int), a, b),
        decreases v@.len() - i,
    {
        let ghost front = views(done@).push(cur@);
        assert(v@.take(i + 1).drop_last() =~= v@.take(i as int));
        assert(v@.take(i + 1).last() == v@[i as int]);
        let c = v[i];
        if c == a || c == b {
            let ghost d0 = done@;
            let ghost c0 = cur@;
            done.push(cur);
            cur = Vec::new();
            assert(views(done@) =~= views(d0).push(c0));
            assert(cur@ =~= Seq::<char>::empty());
        } else {
            let ghost c0 = cur@;
            cur.push(c);
            assert(front.drop_last() =~= views(done@));
            assert(front.last() == c0);
        }
        i += 1;
    }
    assert(v@.take(v@.len() as int) =~= v@);
    let ghost d0 = done@;
    let ghost c0 = cur@;
    done.push(cur);
    assert(views(done@) =~= views(d0).push(c0));
    done
}

/// A text in which every occurrence of `from` is replaced by `to`, from left to right.
pub open spec fn replaced(s: Seq<char>, from: Seq<char>, to: Seq<char>) -> Seq<char>
    decreases s.len(),
{
    if from.len() == 0 || s.len() < from.len() {
        s
    } else if s.take(from.len() as int) == from {
        to + replaced(s.skip(from.len() as int), from, to)
    } else {
        seq![s[0]] + replaced(s.skip(1), from, to)
    }
}

/// Replaces every occurrence of the non-empty `from` by `to`, from left to right.
pub fn replace(s: &str, from: &str, to: &str) -> (r: String)
    requires
        from@.len() > 0,
    ensures
        r@ == replaced(s@, from@, to@),
{
    let v = chars_of(s);
    let f = chars_of(from);
    let mut out = String::new();
    let mut i: usize = 0;
    assert(v@.skip(0) =~= v@);
    assert(out@ + replaced(v@, from@, to@) =~= replaced(v@, from@, to@));
    while i < v.len() && f.len() <= v.len() - i
        invariant
            i <= v@.len(),
            v@ == s@,
            f@ == from@,
            from@.len() > 0,
            out@ + replaced(v@.skip(i as int), from@, to@) == replaced(s@, from@, to@),
        decreases v@.len() - i,
    {
        let ghost o = out@;
        let ghost rest = v@.skip(i as int);
        if matches_at(v.as_slice(), i, f.as_slice()) {
            proof {
                assert(rest.take(f@.len() as int) =~= v@.subrange(i as int, i + f@.len()));
                assert(rest.skip(f@.len() as int) =~= v@.skip(i + f@.len()));
                let tail = replaced(v@.skip(i + f@.len()), from@, to@);
                assert(o + (to@ + tail) =~= (o + to@) + tail);
            }
            out.push_str(to);
            i += f.len();
        } else {
            proof {
                assert(rest.take(f@.len() as int) =~= v@.subrange(i as int, i + f@.len()));
                assert(rest.skip(1) =~= v@.skip(i + 1));
                let tail = replaced(v@.skip(i + 1), from@, to@);
                assert(o + (seq![v@[i as int]] + tail) =~= o.push(v@[i as int]) + tail);
            }
            out.push(v[i]);
            i += 1;
        }
    }
    let ghost rest = v@.skip(i as int);
    let tail = slice_chars(v.as_slice(), i, v.len());
    assert(tail@ =~= rest);
    let t = string_of(tail.as_slice());
    out.push_str(t.as_str());
    out
}

// ---------------------------------------------------------------------------
// Numbers
// ---------------------------------------------------------------------------

/// The digit with the value `d`, in bases up to sixteen.
pub open spec fn digit(d: int) -> char {
    if d < 10 {
        (48 + d) as char
    } else {
        (87 + d) as char
    }
}

/// The decimal numeral of `n`.
pub open spec fn decimal(n: nat) -> Seq<char>
    decreases n,
{
    if n < 10 {
        seq![digit(n as int)]
    } else {
        decimal(n / 10).push(digit((n % 10) as int))
    }
}

/// The lower-case hexadecimal numeral of `n`.
pub open spec fn hexadecimal(n: nat) -> Seq<char>
    decreases n,
{
    if n < 16 {
        seq![digit(n as int)]
    } else {
        hexadecimal(n / 16).push(digit((n % 16) as int))
    }
}

fn digit_char(d: u8) -> (r: char)
    requires
        d < 16,
    ensures
        r == digit(d as int),
{
    if d < 10 {
        (48 + d) as char
    } else {
        (87 + d) as char
    }
}

/// The decimal numeral of a number.
pub fn decimal_text(n: u64) -> (r: String)
    ensures
        r@ == decimal(n as nat),
    decreases n,
{
    if n < 10 {
        let mut out = String::new();
        out.push(digit_char(n as u8));
        assert(out@ =~= seq![digit(n as int)]);
        out
    } else {
        let mut out = decimal_text(n / 10);
        out.push(digit_char((n % 10) as u8));
        out
    }
}

/// The lower-case hexadecimal numeral of a number.
pub fn hexadecimal_text(n: u64) -> (r: String)
    ensures
        r@ == hexadecimal(n as nat),
    decreases n,
{
    if n < 16 {
        let mut out = String::new();
        out.push(digit_char(n as u8));
        assert(out@ =~= seq![digit(n as int)]);
        out
    } else {
        let mut out = hexadecimal_text(n / 16);
        out.push(digit_char((n % 16) as u8));
        out
    }
}

/// Whether every character is a decimal digit.
pub open spec fn all_digits(s: Seq<char>) -> bool {
    forall|i: int| 0 <= i < s.len() ==> '0' <= #[trigger] s[i] && s[i] <= '9'
}

/// The value of a sequence of decimal digits.
pub open spec fn digits_value(s: Seq<char>) -> int
    decreases s.len(),
{
    if s.len() == 0 {
        0
    } else {
        10 * digits_value(s.drop_last()) + (s.last() as int - 48)
    }
}

/// What an integer type with the bounds `min` and `max` reads from a text: a sign
/// (`-` only where negative numbers exist), then at least one digit, within bounds.
pub open spec fn parsed_int(s: Seq<char>, min: int, max: int) -> Option<int> {
    let neg = s.len() > 0 && s[0] == '-' && min < 0;
    let body = if neg || (s.len() > 0 && s[0] == '+') {
        s.skip(1)
    } else {
        s
    };
    let v = if neg {
        -digits_value(body)
    } else {
        digits_value(body)
    };
    if body.len() > 0 && all_digits(body) && min <= v && v <= max {
        Some(v)
    } else {
        None
    }
}

/// The value of `v[from..]` if all of it is digits: `Err(true)` for a value above
/// `2^63`, `Err(false)` for a character that is no digit.
fn digits_from(v: &[char], from: usize) -> (r: Result<u64, bool>)
    requires
        from <= v@.len(),
    ensures
        match r {
            Ok(x) => all_digits(v@.skip(from as int)) && x == digits_value(v@.skip(from as int))
                && x <= 0x8000_0000_0000_0000,
            Err(true) => all_digits(v@.skip(from as int)) && digits_value(v@.skip(from as int))
                > 0x8000_0000_0000_0000,
            Err(false) => !all_digits(v@.skip(from as int)),
        },
{
    let mut acc: u64 = 0;
    let mut over = false;
    let mut i: usize = from;
    let ghost body = v@.skip(from as int);
    assert(body.take(0) =~= Seq::<char>::empty());
    while i < v.len()
        invariant
            from <= i <= v@.len(),
            body == v@.skip(from as int),
            all_digits(body.take(i - from)),
            !over ==> acc == digits_value(body.take(i - from)) && acc <= 0x8000_0000_0000_0000,
            over ==> digits_value(body.take(i - from)) > 0x8000_0000_0000_0000,
        decreases v@.len() - i,
    {
        let c = v[i];
        assert(body[i - from] == c);
        if !('0' <= c && c <= '9') {
            return Err(false);
        }
        let ghost k = i - from;
        assert(body.take(k + 1).drop_last() =~= body.take(k));
        assert(body.take(k + 1).last() == c);
        assert(all_digits(body.take(k + 1))) by {
            assert forall|j: int| 0 <= j < k + 1 implies '0' <= #[trigger] body.take(k + 1)[j]
                && body.take(k + 1)[j] <= '9' by {
                if j < k {
                    assert(body.take(k)[j] == body.take(k + 1)[j]);
                }
            }
        }
        if !over {
            let d: u64 = (c as u32 - 48) as u64;
            let next: u128 = (acc as u128) * 10 + d as u128;
            if next > 0x8000_0000_0000_0000 {
                over = true;
            } else {
                acc = next as u64;
            }
        }
        i += 1;
    }
    assert(body.take(body.len() as int) =~= body);
    if over {
        Err(true)
    } else {
        Ok(acc)
    }
}

/// Reads an `i64`.
pub fn parse_i64(v: &[char]) -> (r: Option<i64>)
    ensures
        match r {
            Some(x) => parsed_int(v@, i64::MIN as int, i64::MAX as int) == Some(x as int),
            None => parsed_int(v@, i64::MIN as int, i64::MAX as int) is None,
        },
{
    if v.len() == 0 {
        return None;
    }
    let neg = v[0] == '-';
    let signed = neg || v[0] == '+';
    assert(v@.skip(0) =~= v@);
    let from: usize = if signed {
        1
    } else {
        0
    };
    if v.len() == from {
        return None;
    }
    match digits_from(v, from) {
        Err(_) => None,
        Ok(x) => {
            if neg {
                if x == 0x8000_0000_0000_0000 {
                    Some(i64::MIN)
                } else {
                    Some(-(x as i64))
                }
            } else if x == 0x8000_0000_0000_0000 {
                None
            } else {
                Some(x as i64)
            }
        },
    }
}

/// Reads a `u16`.
pub fn parse_u16(s: &str) -> (r: Option<u16>)
    ensures
        match r {
            Some(x) => parsed_int(s@, 0, u16::MAX as int) == Some(x as int),
            None => parsed_int(s@, 0, u16::MAX as int) is None,
        },
{
    let v = chars_of(s);
    if v.len() == 0 {
        return None;
    }
    assert(v@.skip(0) =~= v@);
    let from: usize = if v[0] == '+' {
        1
    } else {
        0
    };
    if v.len() == from {
        return None;
    }
    match digits_from(v.as_slice(), from) {
        Err(_) => None,
        Ok(x) => {
            if x <= 0xffff {
                Some(x as u16)
            } else {
                None
            }
        },
    }
}

/// A decimal numeral is made of digits.
pub proof fn lemma_decimal_digits(n: nat)
    ensures
        decimal(n).len() > 0,
        forall|i: int| 0 <= i < decimal(n).len() ==> '0' <= #[trigger] decimal(n)[i] <= '9',
    decreases n,
{
    if n >= 10 {
        lemma_decimal_digits(n / 10);
    }
}

/// Different numbers have different decimal numerals.
pub proof fn lemma_decimal_injective(m: nat, n: nat)
    requires
        decimal(m) == decimal(n),
    ensures
        m == n,
    decreases m,
{
    lemma_decimal_digits(m / 10);
    lemma_decimal_digits(n / 10);
    assert(decimal(m).last() == digit((m % 10) as int));
    assert(decimal(n).last() == digit((n % 10) as int));
    if m >= 10 {
        assert(decimal(m).drop_last() =~= decimal(m / 10));
        if n >= 10 {
            assert(decimal(n).drop_last() =~= decimal(n / 10));
            lemma_decimal_injective(m / 10, n / 10);
        } else {
            assert(decimal(m).len() > 1);
        }
    } else if n >= 10 {
        assert(decimal(n).drop_last() =~= decimal(n / 10));
        assert(decimal(n).len() > 1);
    }
}

proof fn lemma_decimal_value(n: nat)
    ensures
        digits_value(decimal(n)) == n,
    decreases n,
{
    if n < 10 {
        let s = decimal(n);
        assert(s.drop_last() =~= Seq::empty());
        assert(digits_value(s.drop_last()) == 0);
    } else {
        lemma_decimal_value(n / 10);
        assert(decimal(n).drop_last() =~= decimal(n / 10));
    }
}

/// A number is read again from its decimal numeral.
pub proof fn lemma_decimal_parses(n: nat, max: int)
    requires
        n <= max,
    ensures
        parsed_int(decimal(n), 0, max) == Some(n as int),
{
    lemma_decimal_digits(n);
    lemma_decimal_value(n);
    assert(decimal(n)[0] != '+');
}

// ---------------------------------------------------------------------------
// Laws
// ---------------------------------------------------------------------------

/// A decimal numeral is that of a tenth of the number with one more digit behind it, of
/// which the lowest stands for zero and the highest for nine.
pub proof fn law_decimal_is_positional(n: nat, d: int)
    requires
        0 <= d < 10,
    ensures
        decimal(d as nat) == seq![(48 + d) as char],
        n > 0 ==> decimal((10 * n + d) as nat) == decimal(n).push((48 + d) as char),
{
    let m = (10 * n + d) as nat;
    assert(m / 10 == n && m % 10 == d);
}

/// A hexadecimal numeral is that of a sixteenth of the number with one more digit behind it.
pub proof fn law_hexadecimal_is_positional(n: nat, d: int)
    requires
        0 <= d < 16,
    ensures
        ({
            let c = if d < 10 {
                (48 + d) as char
            } else {
                (97 + d - 10) as char
            };
            &&& hexadecimal(d as nat) == seq![c]
            &&& n > 0 ==> hexadecimal((16 * n + d) as nat) == hexadecimal(n).push(c)
        }),
{
    let m = (16 * n + d) as nat;
    assert(m / 16 == n && m % 16 == d);
}

/// What is read from the decimal numeral of a number is that number, also behind a sign.
/// Numbers out of bounds are not read, nor is a text without digits or with anything else in
/// it.
pub proof fn law_numbers_are_read(n: nat, min: int, max: int)
    requires
        min <= 0 <= max,
    ensures
        parsed_int(decimal(n), min, max) == if n <= max {
            Some(n as int)
        } else {
            None
        },
        parsed_int(seq!['+'] + decimal(n), min, max) == if n <= max {
            Some(n as int)
        } else {
            None
        },
        parsed_int(seq!['-'] + decimal(n), min, max) == if min < 0 && min <= -n {
            Some(-n)
        } else {
            None
        },
{
    lemma_decimal_digits(n);
    lemma_decimal_value(n);
    assert((seq!['+'] + decimal(n)).skip(1) =~= decimal(n));
    assert((seq!['-'] + decimal(n)).skip(1) =~= decimal(n));
    assert(decimal(n)[0] != '+' && decimal(n)[0] != '-');
    if !(min < 0) {
        assert((seq!['-'] + decimal(n))[0] == '-');
    }
}

/// What is no number is not read.
pub proof fn law_other_texts_are_no_numbers(s: Seq<char>, min: int, max: int, i: int)
    requires
        s.len() == 0 || 0 <= i < s.len() && !('0' <= s[i] && s[i] <= '9') && (i > 0 || (s[0] != '+'
            && s[0] != '-')),
    ensures
        parsed_int(s, min, max) is None,
{
    if s.len() > 0 {
        if (s[0] == '-' && min < 0) || s[0] == '+' {
            assert(s.skip(1)[i - 1] == s[i]);
        }
    }
}

/// A text holds another one exactly where it is made of it with something before and
/// something behind.
pub proof fn law_contains_is_a_split(s: Seq<char>, n: Seq<char>)
    ensures
        contains_text(s, n) <==> exists|a: Seq<char>, b: Seq<char>| s == #[trigger] (a + n + b),
{
    if contains_text(s, n) {
        let i = choose|i: int| #[trigger] occurs_at(s, n, i);
        let (a, b) = (s.take(i), s.skip(i + n.len()));
        assert(s =~= a + n + b) by {
            assert forall|k: int| 0 <= k < s.len() implies s[k] == (a + n + b)[k] by {
                if i <= k < i + n.len() {
                    assert(s.subrange(i, i + n.len())[k - i] == s[k]);
                }
            }
        }
    }
    assert forall|a: Seq<char>, b: Seq<char>| s == #[trigger] (a + n + b) implies contains_text(
        s,
        n,
    ) by {
        assert(s.subrange(a.len() as int, (a.len() + n.len()) as int) =~= n);
        assert(occurs_at(s, n, a.len() as int));
    }
}

/// A text begins with another one exactly where it is made of it with something behind.
pub proof fn law_begins_with_is_a_split(s: Seq<char>, p: Seq<char>)
    ensures
        begins_with(s, p) <==> exists|b: Seq<char>| s == #[trigger] (p + b),
{
    if begins_with(s, p) {
        assert(s =~= p + s.skip(p.len() as int)) by {
            assert forall|k: int| 0 <= k < p.len() implies s[k] == p[k] by {
                assert(s.take(p.len() as int)[k] == s[k]);
            }
        }
    }
    assert forall|b: Seq<char>| s == #[trigger] (p + b) implies begins_with(s, p) by {
        assert(s.take(p.len() as int) =~= p);
    }
}

/// Trimming takes white space off both ends, all of it, and nothing else.
pub proof fn law_trimming_takes_white_space(s: Seq<char>)
    ensures
        exists|a: Seq<char>, b: Seq<char>|
            {
                &&& s == #[trigger] (a + trimmed(s) + b)
                &&& forall|i: int| 0 <= i < a.len() ==> whitespace(#[trigger] a[i])
                &&& forall|i: int| 0 <= i < b.len() ==> whitespace(#[trigger] b[i])
            },
        trimmed(s).len() > 0 ==> !whitespace(trimmed(s).first()) && !whitespace(trimmed(s).last()),
{
    let t = trimmed_start(s);
    lemma_trimmed_start(s);
    lemma_trimmed_end(t);
    let a = s.take(s.len() - t.len());
    let b = t.skip(trimmed_end(t).len() as int);
    assert(s =~= a + trimmed(s) + b);
    if trimmed(s).len() > 0 {
        assert(trimmed(s).first() == t.first());
    }
}

/// Trimming the end takes the white space off it, all of it, and nothing else.
pub proof fn lemma_trimmed_end(s: Seq<char>)
    ensures
        trimmed_end(s).len() <= s.len(),
        trimmed_end(s) == s.take(trimmed_end(s).len() as int),
        forall|i: int| trimmed_end(s).len() <= i < s.len() ==> whitespace(#[trigger] s[i]),
        trimmed_end(s).len() > 0 ==> !whitespace(trimmed_end(s).last()),
    decreases s.len(),
{
    if s.len() > 0 && whitespace(s.last()) {
        let f = s.drop_last();
        lemma_trimmed_end(f);
        let n = trimmed_end(f).len() as int;
        assert(f.take(n) =~= s.take(n));
        assert forall|i: int| n <= i < s.len() implies whitespace(#[trigger] s[i]) by {
            if i < s.len() - 1 {
                assert(f[i] == s[i]);
            }
        }
    } else {
        assert(s.take(s.len() as int) =~= s);
    }
}

/// Trimming the beginning takes the white space off it, all of it, and nothing else.
pub proof fn lemma_trimmed_start(s: Seq<char>)
    ensures
        trimmed_start(s).len() <= s.len(),
        trimmed_start(s) == s.skip(s.len() - trimmed_start(s).len()),
        forall|i: int| 0 <= i < s.len() - trimmed_start(s).len() ==> whitespace(#[trigger] s[i]),
        trimmed_start(s).len() > 0 ==> !whitespace(trimmed_start(s).first()),
    decreases s.len(),
{
    if s.len() > 0 && whitespace(s.first()) {
        let r = s.drop_first();
        lemma_trimmed_start(r);
        let n = trimmed_start(r).len();
        assert(r.skip(r.len() - n) =~= s.skip(s.len() - n));
        assert forall|i: int| 0 <= i < s.len() - n implies whitespace(#[trigger] s[i]) by {
            if i > 0 {
                assert(r[i - 1] == s[i]);
            }
        }
    } else {
        assert(s.skip(0) =~= s);
    }
}

/// White space is what Unicode takes for it: tabs, line breaks of all kinds and blanks of every
/// width, and nothing else.
pub proof fn law_white_space(c: char)
    ensures
        ({
            let n = c as int;
            whitespace(c) <==> {
                ||| 0x9 <= n <= 0xd
                ||| n == 0x20 || n == 0x85 || n == 0xa0 || n == 0x1680
                ||| 0x2000 <= n <= 0x200a
                ||| n == 0x2028 || n == 0x2029 || n == 0x202f || n == 0x205f || n == 0x3000
            }
        }),
{
}

/// Trimming trailing characters takes all of them off the end, and nothing else.
pub proof fn law_trimming_takes_trailing_characters(s: Seq<char>, c: char)
    ensures
        trimmed_end_of(s, c).len() <= s.len(),
        trimmed_end_of(s, c) == s.take(trimmed_end_of(s, c).len() as int),
        forall|i: int| trimmed_end_of(s, c).len() <= i < s.len() ==> #[trigger] s[i] == c,
        trimmed_end_of(s, c).len() > 0 ==> trimmed_end_of(s, c).last() != c,
    decreases s.len(),
{
    if s.len() > 0 && s.last() == c {
        let f = s.drop_last();
        law_trimming_takes_trailing_characters(f, c);
        let n = trimmed_end_of(f, c).len() as int;
        assert(f.take(n) =~= s.take(n));
        assert forall|i: int| n <= i < s.len() implies #[trigger] s[i] == c by {
            if i < s.len() - 1 {
                assert(f[i] == s[i]);
            }
        }
    } else {
        assert(s.take(s.len() as int) =~= s);
    }
}

/// A text splits at the first occurrence of a character: what stands before it does not
/// hold it, and both parts with it between them are the text.
pub proof fn law_split_at_the_first(s: Seq<char>, c: char)
    ensures
        match split_at_first(s, c) {
            Some((a, b)) => s == a + seq![c] + b && !a.contains(c),
            None => !s.contains(c),
        },
    decreases s.len(),
{
    lemma_split_at_first_none(s, c);
    if s.contains(c) {
        let i = choose|i: int|
            0 <= i < s.len() && s[i] == c && forall|j: int| 0 <= j < i ==> s[j] != c;
        lemma_first_place(s, c);
        let (a, b) = (s.take(i), s.skip(i + 1));
        assert(s =~= a + seq![c] + b);
        lemma_split_at_first(a, c, b);
    }
}

proof fn lemma_first_place(s: Seq<char>, c: char)
    requires
        s.contains(c),
    ensures
        exists|i: int| 0 <= i < s.len() && s[i] == c && forall|j: int| 0 <= j < i ==> s[j] != c,
    decreases s.len(),
{
    let f = s.drop_last();
    if f.contains(c) {
        lemma_first_place(f, c);
        let i = choose|i: int|
            0 <= i < f.len() && f[i] == c && forall|j: int| 0 <= j < i ==> f[j] != c;
        assert forall|j: int| 0 <= j < i implies s[j] != c by {
            assert(f[j] == s[j]);
        }
        assert(s[i] == c);
    } else {
        let k = choose|k: int| 0 <= k < s.len() && s[k] == c;
        assert forall|j: int| 0 <= j < s.len() - 1 implies s[j] != c by {
            assert(f[j] == s[j]);
            if s[j] == c {
                assert(f.contains(c));
            }
        }
        assert(s[s.len() - 1] == c);
    }
}

/// A text without separators is one part.
pub proof fn law_one_part(s: Seq<char>, a: char, b: char)
    requires
        !s.contains(a),
        !s.contains(b),
    ensures
        split_parts(s, a, b) == seq![s],
    decreases s.len(),
{
    if s.len() == 0 {
        assert(s =~= Seq::empty());
    } else {
        let f = s.drop_last();
        assert forall|c: char| f.contains(c) implies s.contains(c) by {
            let i = choose|i: int| 0 <= i < f.len() && f[i] == c;
            assert(s[i] == c);
        }
        assert(s.contains(s.last()));
        law_one_part(f, a, b);
        assert(f.push(s.last()) =~= s);
        assert(seq![f].drop_last().push(s) =~= seq![s]);
    }
}

/// The parts around a separator are the parts before it and those behind it.
pub proof fn law_parts_around_a_separator(s: Seq<char>, sep: char, r: Seq<char>, a: char, b: char)
    requires
        sep == a || sep == b,
    ensures
        split_parts(s + seq![sep] + r, a, b) == split_parts(s, a, b) + split_parts(r, a, b),
    decreases r.len(),
{
    let front = split_parts(s, a, b);
    if r.len() == 0 {
        let t = s + seq![sep] + r;
        assert(t =~= s.push(sep));
        assert(s.push(sep).drop_last() =~= s);
        assert(front.push(Seq::empty()) =~= front + seq![Seq::<char>::empty()]);
    } else {
        let t = s + seq![sep] + r;
        law_parts_around_a_separator(s, sep, r.drop_last(), a, b);
        assert(t.drop_last() =~= s + seq![sep] + r.drop_last());
        assert(t.last() == r.last());
        let rest = split_parts(r.drop_last(), a, b);
        lemma_split_parts_nonempty(r.drop_last(), a, b);
        let all = front + rest;
        assert(all.last() == rest.last());
        assert(all.drop_last() =~= front + rest.drop_last());
        if r.last() == a || r.last() == b {
            assert(all.push(Seq::empty()) =~= front + rest.push(Seq::empty()));
        } else {
            let last = rest.last().push(r.last());
            assert(all.drop_last().push(last) =~= front + rest.drop_last().push(last));
        }
    }
}

/// Replacing changes an occurrence at the beginning and goes on behind it; a character that
/// begins no occurrence stays.
pub proof fn law_replacing_step(from: Seq<char>, to: Seq<char>, c: char, r: Seq<char>)
    requires
        from.len() > 0,
    ensures
        replaced(from + r, from, to) == to + replaced(r, from, to),
        !begins_with(seq![c] + r, from) ==> replaced(seq![c] + r, from, to) == seq![c] + replaced(
            r,
            from,
            to,
        ),
        replaced(Seq::empty(), from, to) == Seq::<char>::empty(),
{
    let n = from.len() as int;
    assert((from + r).take(n) =~= from);
    assert((from + r).skip(n) =~= r);
    assert((seq![c] + r).skip(1) =~= r);
}

/// A hexadecimal numeral is made of digits and the letters up to f.
pub proof fn lemma_hexadecimal_digits(n: nat)
    ensures
        hexadecimal(n).len() > 0,
        forall|i: int|
            0 <= i < hexadecimal(n).len() ==> ('0' <= #[trigger] hexadecimal(n)[i] <= '9' || 'a'
                <= hexadecimal(n)[i] <= 'f'),
    decreases n,
{
    if n >= 16 {
        lemma_hexadecimal_digits(n / 16);
    }
}

/// Different numbers have different hexadecimal numerals.
pub proof fn law_hexadecimal_is_unique(m: nat, n: nat)
    requires
        hexadecimal(m) == hexadecimal(n),
    ensures
        m == n,
    decreases m,
{
    lemma_hexadecimal_digits(m / 16);
    lemma_hexadecimal_digits(n / 16);
    assert(hexadecimal(m).last() == digit((m % 16) as int));
    assert(hexadecimal(n).last() == digit((n % 16) as int));
    if m >= 16 {
        assert(hexadecimal(m).drop_last() =~= hexadecimal(m / 16));
        if n >= 16 {
            assert(hexadecimal(n).drop_last() =~= hexadecimal(n / 16));
            law_hexadecimal_is_unique(m / 16, n / 16);
        } else {
            assert(hexadecimal(m).len() > 1);
        }
    } else if n >= 16 {
        assert(hexadecimal(n).drop_last() =~= hexadecimal(n / 16));
        assert(hexadecimal(n).len() > 1);
    }
}

/// A hexadecimal numeral begins with a zero only where it is that of zero.
pub proof fn lemma_hexadecimal_first(n: nat)
    requires
        n > 0,
    ensures
        hexadecimal(n)[0] != '0',
    decreases n,
{
    lemma_hexadecimal_digits(n);
    if n >= 16 {
        lemma_hexadecimal_first(n / 16);
        lemma_hexadecimal_digits(n / 16);
        assert(hexadecimal(n)[0] == hexadecimal(n / 16)[0]);
    }
}

} // verus!
