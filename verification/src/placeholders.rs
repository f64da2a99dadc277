//! What filling in the arguments of a message does, and the placeholders of all messages.

use vstd::prelude::*;

use crate::i18n;
use crate::i18n::Table;
use crate::text;

verus! {

/// Whether a text begins with the placeholder of one of the first `n` arguments.
pub open spec fn begins_with_hole(s: Seq<char>, n: int) -> bool {
    exists|i: nat| i < n && #[trigger] text::begins_with(s, i18n::hole(i))
}

/// A text in which each placeholder of one of the first `n` arguments became that argument,
/// all at once, and everything else stays.
pub open spec fn substituted(s: Seq<char>, args: Seq<Seq<char>>, n: int) -> Seq<char>
    decreases s.len(),
{
    if s.len() == 0 {
        s
    } else if begins_with_hole(s, n) {
        let i = choose|i: nat| i < n && #[trigger] text::begins_with(s, i18n::hole(i));
        proof {
            lemma_hole(i);
        }
        args[i as int] + substituted(s.skip(i18n::hole(i).len() as int), args, n)
    } else {
        seq![s[0]] + substituted(s.skip(1), args, n)
    }
}

/// Whether a text holds no brace.
pub open spec fn no_braces(s: Seq<char>) -> bool {
    forall|k: int| 0 <= k < s.len() ==> #[trigger] s[k] != '{' && s[k] != '}'
}

/// Whether a placeholder of one of the first `n` arguments stands inside of another brace,
/// with nothing but digits before it, as in `{{0}}`.
pub open spec fn nested(s: Seq<char>, n: int) -> bool {
    exists|k: int, m: int| #[trigger] nested_at(s, n, k, m)
}

/// Whether there is a brace at `k`, digits behind it, and a placeholder at `m`.
pub open spec fn nested_at(s: Seq<char>, n: int, k: int, m: int) -> bool {
    &&& 0 <= k < m < s.len()
    &&& s[k] == '{'
    &&& text::all_digits(s.subrange(k + 1, m))
    &&& begins_with_hole(s.skip(m), n)
}

/// What a placeholder is made of: digits between braces.
pub proof fn lemma_hole(i: nat)
    ensures
        i18n::hole(i).len() >= 3,
        i18n::hole(i)[0] == '{',
        i18n::hole(i).last() == '}',
        i18n::hole(i).subrange(1, i18n::hole(i).len() - 1) == text::decimal(i),
        forall|k: int| 1 <= k < i18n::hole(i).len() - 1 ==> '0' <= #[trigger] i18n::hole(i)[k] <= '9',
{
    reveal_strlit("{");
    reveal_strlit("}");
    text::lemma_decimal_digits(i);
    assert(i18n::hole(i).subrange(1, i18n::hole(i).len() - 1) =~= text::decimal(i));
    assert forall|k: int| 1 <= k < i18n::hole(i).len() - 1 implies '0' <= #[trigger] i18n::hole(i)[k]
        <= '9' by {
        assert(i18n::hole(i)[k] == text::decimal(i)[k - 1]);
    }
}

/// A text begins with one placeholder only.
proof fn lemma_one_hole(s: Seq<char>, i: nat, j: nat)
    requires
        text::begins_with(s, i18n::hole(i)),
        text::begins_with(s, i18n::hole(j)),
    ensures
        i == j,
{
    lemma_hole(i);
    lemma_hole(j);
    let a = i18n::hole(i);
    let b = i18n::hole(j);
    assert forall|k: int| 0 <= k < a.len() implies s[k] == a[k] by {
        assert(s.take(a.len() as int)[k] == a[k]);
    }
    assert forall|k: int| 0 <= k < b.len() implies s[k] == b[k] by {
        assert(s.take(b.len() as int)[k] == b[k]);
    }
    if a.len() < b.len() {
        assert(b[a.len() - 1] == '}');
    } else if b.len() < a.len() {
        assert(a[b.len() - 1] == '}');
    }
    assert(a =~= b);
    text::lemma_decimal_injective(i, j);
}

/// A text that begins with a placeholder begins with a brace.
proof fn lemma_hole_begins(s: Seq<char>, n: int)
    requires
        begins_with_hole(s, n),
    ensures
        s.len() > 0,
        s[0] == '{',
{
    let i = choose|i: nat| i < n && #[trigger] text::begins_with(s, i18n::hole(i));
    lemma_hole(i);
    assert(s.take(i18n::hole(i).len() as int)[0] == s[0]);
}

/// What stands before a text without an opening brace stays.
proof fn lemma_substituted_prefix(p: Seq<char>, t: Seq<char>, args: Seq<Seq<char>>, n: int)
    requires
        forall|k: int| 0 <= k < p.len() ==> #[trigger] p[k] != '{',
    ensures
        substituted(p + t, args, n) == p + substituted(t, args, n),
    decreases p.len(),
{
    if p.len() == 0 {
        assert(p + t =~= t);
        assert(p + substituted(t, args, n) =~= substituted(t, args, n));
    } else {
        let s = p + t;
        assert(s[0] == p[0]);
        if begins_with_hole(s, n) {
            lemma_hole_begins(s, n);
        }
        let rest = p.skip(1);
        assert(s.skip(1) =~= rest + t);
        lemma_substituted_prefix(rest, t, args, n);
        assert(seq![p[0]] + (rest + substituted(t, args, n)) =~= p + substituted(t, args, n));
    }
}

/// What stands before a text without an opening brace is replaced nowhere.
proof fn lemma_replaced_prefix(p: Seq<char>, t: Seq<char>, i: nat, a: Seq<char>)
    requires
        forall|k: int| 0 <= k < p.len() ==> #[trigger] p[k] != '{',
    ensures
        text::replaced(p + t, i18n::hole(i), a) == p + text::replaced(t, i18n::hole(i), a),
    decreases p.len(),
{
    lemma_hole(i);
    if p.len() == 0 {
        assert(p + t =~= t);
        assert(p + text::replaced(t, i18n::hole(i), a) =~= text::replaced(t, i18n::hole(i), a));
    } else {
        let s = p + t;
        let rest = p.skip(1);
        assert(s.skip(1) =~= rest + t);
        lemma_replaced_prefix(rest, t, i, a);
        assert(seq![p[0]] + (rest + text::replaced(t, i18n::hole(i), a)) =~= p + text::replaced(
            t,
            i18n::hole(i),
            a,
        ));
        if s.len() < i18n::hole(i).len() {
            assert(text::replaced(t, i18n::hole(i), a) == t);
        } else {
            assert(s.take(i18n::hole(i).len() as int)[0] == p[0]);
        }
    }
}

proof fn lemma_substituted_hole(s: Seq<char>, args: Seq<Seq<char>>, n: int, i: nat)
    requires
        i < n,
        text::begins_with(s, i18n::hole(i)),
    ensures
        substituted(s, args, n) == args[i as int] + substituted(
            s.skip(i18n::hole(i).len() as int),
            args,
            n,
        ),
{
    lemma_hole(i);
    assert(begins_with_hole(s, n));
    let j = choose|j: nat| j < n && #[trigger] text::begins_with(s, i18n::hole(j));
    lemma_one_hole(s, i, j);
}

proof fn lemma_substituted_char(s: Seq<char>, args: Seq<Seq<char>>, n: int)
    requires
        s.len() > 0,
        !begins_with_hole(s, n),
    ensures
        substituted(s, args, n) == seq![s[0]] + substituted(s.skip(1), args, n),
{
}

proof fn lemma_nested_skip(s: Seq<char>, n: int, d: int)
    requires
        0 <= d <= s.len(),
        nested(s.skip(d), n),
    ensures
        nested(s, n),
{
    let t = s.skip(d);
    let (k, m) = choose|k: int, m: int| #[trigger] nested_at(t, n, k, m);
    assert(t.skip(m) =~= s.skip(m + d));
    assert(t.subrange(k + 1, m) =~= s.subrange(k + d + 1, m + d));
    assert(nested_at(s, n, k + d, m + d));
}

/// How many digits a text begins with.
spec fn digits_before(s: Seq<char>) -> int
    decreases s.len(),
{
    if s.len() > 0 && '0' <= s[0] && s[0] <= '9' {
        1 + digits_before(s.skip(1))
    } else {
        0
    }
}

proof fn lemma_digits_before(s: Seq<char>)
    ensures
        0 <= digits_before(s) <= s.len(),
        text::all_digits(s.take(digits_before(s))),
        digits_before(s) < s.len() ==> !('0' <= s[digits_before(s)] && s[digits_before(s)] <= '9'),
    decreases s.len(),
{
    if s.len() > 0 && '0' <= s[0] && s[0] <= '9' {
        let rest = s.skip(1);
        let d = digits_before(rest);
        lemma_digits_before(rest);
        assert forall|k: int| 0 <= k < d + 1 implies '0' <= #[trigger] s.take(d + 1)[k] && s.take(
            d + 1,
        )[k] <= '9' by {
            if k > 0 {
                assert(rest.take(d)[k - 1] == s.take(d + 1)[k]);
            }
        }
        if d < rest.len() {
            assert(rest[d] == s[d + 1]);
        }
    }
}

/// A brace that begins no placeholder of the text begins none in what the text became.
proof fn lemma_no_new_hole(s: Seq<char>, args: Seq<Seq<char>>, n: int, i: nat)
    requires
        s.len() > 0,
        s[0] == '{',
        !nested(s, n),
        !text::begins_with(s, i18n::hole(i)),
    ensures
        !text::begins_with(seq![s[0]] + substituted(s.skip(1), args, n), i18n::hole(i)),
{
    let t = s.skip(1);
    let d = digits_before(t);
    lemma_digits_before(t);
    lemma_hole(i);
    let h = i18n::hole(i);
    let q = t.take(d);
    let rest = t.skip(d);
    assert(t =~= q + rest);
    lemma_substituted_prefix(q, rest, args, n);
    let u = substituted(rest, args, n);
    let w = seq![s[0]] + (q + u);
    if text::begins_with(w, h) {
        assert forall|k: int| 0 <= k < h.len() implies w[k] == h[k] by {
            assert(w.take(h.len() as int)[k] == h[k]);
        }
        assert forall|k: int| 0 <= k < d implies '0' <= #[trigger] q[k] <= '9' by {}
        // The digits of the placeholder are those of the text.
        if h.len() - 2 < d {
            assert(w[h.len() - 1] == q[h.len() - 2]);
        }
        if rest.len() == 0 {
            assert(u.len() == 0);
        } else {
            assert(rest[0] == t[d]);
            if begins_with_hole(rest, n) {
                assert(s.skip(d + 1) =~= rest);
                assert(s.subrange(1, d + 1) =~= q);
                assert(nested_at(s, n, 0, d + 1));
            }
            lemma_substituted_char(rest, args, n);
            assert(w[d + 1] == u[0]);
            assert(u[0] == rest[0]);
            if h.len() - 2 > d {
                assert(h[d + 1] == rest[0]);
            }
            assert(h.len() - 2 == d);
            assert(s.take(h.len() as int) =~= h);
        }
    }
}

/// One more argument is filled in.
proof fn lemma_one_more(s: Seq<char>, args: Seq<Seq<char>>, n: nat)
    requires
        n < args.len(),
        !nested(s, n as int),
        forall|i: int| 0 <= i < args.len() ==> no_braces(#[trigger] args[i]),
    ensures
        text::replaced(substituted(s, args, n as int), i18n::hole(n), args[n as int]) == substituted(
            s,
            args,
            n as int + 1,
        ),
    decreases s.len(),
{
    let a = args[n as int];
    lemma_hole(n);
    if s.len() > 0 {
        if begins_with_hole(s, n as int) {
            let i = choose|i: nat| i < n && #[trigger] text::begins_with(s, i18n::hole(i));
            lemma_hole(i);
            let len = i18n::hole(i).len() as int;
            let rest = s.skip(len);
            lemma_substituted_hole(s, args, n as int, i);
            lemma_substituted_hole(s, args, n as int + 1, i);
            if nested(rest, n as int) {
                lemma_nested_skip(s, n as int, len);
            }
            lemma_one_more(rest, args, n);
            assert(no_braces(args[i as int]));
            lemma_replaced_prefix(args[i as int], substituted(rest, args, n as int), n, a);
        } else if text::begins_with(s, i18n::hole(n)) {
            let len = i18n::hole(n).len() as int;
            let rest = s.skip(len);
            let tail = i18n::hole(n).skip(1);
            lemma_substituted_hole(s, args, n as int + 1, n);
            lemma_substituted_char(s, args, n as int);
            assert(s.take(len)[0] == s[0]);
            assert(s.skip(1) =~= tail + rest) by {
                assert(s =~= s.take(len) + rest);
            }
            assert forall|k: int| 0 <= k < tail.len() implies #[trigger] tail[k] != '{' by {
                assert(tail[k] == i18n::hole(n)[k + 1]);
            }
            lemma_substituted_prefix(tail, rest, args, n as int);
            let u = substituted(rest, args, n as int);
            assert(seq!['{'] + (tail + u) =~= i18n::hole(n) + u);
            assert((i18n::hole(n) + u).take(len) =~= i18n::hole(n));
            assert((i18n::hole(n) + u).skip(len) =~= u);
            if nested(rest, n as int) {
                lemma_nested_skip(s, n as int, len);
            }
            lemma_one_more(rest, args, n);
        } else {
            let rest = s.skip(1);
            if begins_with_hole(s, n as int + 1) {
                let i = choose|i: nat| i < n + 1 && #[trigger] text::begins_with(s, i18n::hole(i));
                assert(i == n || i < n);
            }
            lemma_substituted_char(s, args, n as int);
            lemma_substituted_char(s, args, n as int + 1);
            if nested(rest, n as int) {
                lemma_nested_skip(s, n as int, 1);
            }
            lemma_one_more(rest, args, n);
            let u = substituted(rest, args, n as int);
            let w = seq![s[0]] + u;
            assert(w.skip(1) =~= u);
            if s[0] == '{' {
                lemma_no_new_hole(s, args, n as int, n);
            }
            if w.len() < i18n::hole(n).len() {
                assert(text::replaced(u, i18n::hole(n), a) == u);
            } else {
                if w.take(i18n::hole(n).len() as int) == i18n::hole(n) {
                    assert(w.take(i18n::hole(n).len() as int)[0] == w[0]);
                }
            }
        }
    } else {
        assert(substituted(s, args, n as int) == s);
    }
}

proof fn lemma_nested_fewer(s: Seq<char>, m: int, n: int)
    requires
        m <= n,
        nested(s, m),
    ensures
        nested(s, n),
{
    let (k, l) = choose|k: int, l: int| #[trigger] nested_at(s, m, k, l);
    let i = choose|i: nat| i < m && #[trigger] text::begins_with(s.skip(l), i18n::hole(i));
    assert(begins_with_hole(s.skip(l), n));
    assert(nested_at(s, n, k, l));
}

proof fn lemma_filled_at_once(s: Seq<char>, args: Seq<Seq<char>>, n: nat)
    requires
        n <= args.len(),
        !nested(s, n as int),
        forall|i: int| 0 <= i < args.len() ==> no_braces(#[trigger] args[i]),
    ensures
        i18n::filled(s, args, n as int) == substituted(s, args, n as int),
    decreases n,
{
    if n == 0 {
        law_no_arguments_leave_the_text(s, args);
    } else {
        let m = (n - 1) as nat;
        if nested(s, m as int) {
            lemma_nested_fewer(s, m as int, n as int);
        }
        lemma_filled_at_once(s, args, m);
        lemma_one_more(s, args, m);
    }
}

/// Without arguments a text stays as it is.
pub proof fn law_no_arguments_leave_the_text(s: Seq<char>, args: Seq<Seq<char>>)
    ensures
        i18n::filled(s, args, 0) == s,
        substituted(s, args, 0) == s,
    decreases s.len(),
{
    if s.len() > 0 {
        assert(!begins_with_hole(s, 0));
        law_no_arguments_leave_the_text(s.skip(1), args);
        assert(seq![s[0]] + s.skip(1) =~= s);
    }
}

/// Where no argument holds a brace, filling in the arguments one after the other replaces
/// each placeholder of an argument by that argument and leaves everything else as it is.
/// Only where a placeholder stands inside of another one could an argument complete that.
pub proof fn law_arguments_are_filled_in_at_once(s: Seq<char>, args: Seq<Seq<char>>)
    requires
        !nested(s, args.len() as int),
        forall|i: int| 0 <= i < args.len() ==> no_braces(#[trigger] args[i]),
    ensures
        i18n::filled(s, args, args.len() as int) == substituted(s, args, args.len() as int),
{
    lemma_filled_at_once(s, args, args.len());
}

/// The arguments that a text has placeholders for.
pub open spec fn holes(s: Seq<char>) -> Set<nat> {
    Set::new(|i: nat| text::contains_text(s, i18n::hole(i)))
}

/// Whether every brace begins a placeholder with one digit.
pub open spec fn simple_braces(s: Seq<char>) -> bool {
    forall|k: int|
        0 <= k < s.len() && #[trigger] s[k] == '{' ==> k + 2 < s.len() && '0' <= s[k + 1] <= '9'
            && s[k + 2] == '}'
}

proof fn lemma_simple_is_not_nested(s: Seq<char>, n: int)
    requires
        simple_braces(s),
    ensures
        !nested(s, n),
{
    if nested(s, n) {
        let (k, m) = choose|k: int, m: int| #[trigger] nested_at(s, n, k, m);
        lemma_hole_begins(s.skip(m), n);
        assert(s[m] == '{');
        let q = s.subrange(k + 1, m);
        if m > k + 2 {
            assert(q[1] == s[k + 2]);
        }
    }
}

/// Whether a text holds no opening brace.
pub open spec fn plain(s: Seq<char>) -> bool {
    forall|k: int| 0 <= k < s.len() ==> #[trigger] s[k] != '{'
}

/// Whether a text has placeholders for some arguments, and no other braces.
pub open spec fn asks_for(s: Seq<char>, args: Set<nat>) -> bool {
    simple_braces(s) && holes(s) == args
}

/// What the placeholders of a text without braces are.
proof fn lemma_plain_text(s: Seq<char>)
    requires
        plain(s),
    ensures
        simple_braces(s),
        holes(s) == Set::<nat>::empty(),
{
    assert forall|i: nat| !holes(s).contains(i) by {
        if text::contains_text(s, i18n::hole(i)) {
            let k = choose|k: int| #[trigger] text::occurs_at(s, i18n::hole(i), k);
            lemma_hole(i);
            assert(s.subrange(k, k + i18n::hole(i).len())[0] == s[k]);
        }
    }
    assert(holes(s) =~= Set::<nat>::empty());
}

/// A placeholder of a simple text has one digit.
proof fn lemma_simple_hole(s: Seq<char>, i: nat, k: int)
    requires
        simple_braces(s),
        text::occurs_at(s, i18n::hole(i), k),
    ensures
        i < 10,
        s[k] == '{',
        s[k + 1] == text::digit(i as int),
{
    lemma_hole(i);
    let h = i18n::hole(i);
    let w = s.subrange(k, k + h.len());
    assert(w[0] == s[k] && w[1] == s[k + 1] && w[2] == s[k + 2]);
    assert(h.len() == 3);
    assert(text::decimal(i).len() == 1);
    if i >= 10 {
        text::lemma_decimal_digits(i / 10);
    }
    assert(text::decimal(i)[0] == h[1]);
}

/// A placeholder with one digit.
proof fn lemma_hole_here(s: Seq<char>, i: nat, k: int)
    requires
        i < 10,
        0 <= k,
        k + 2 < s.len(),
        s[k] == '{',
        s[k + 1] == text::digit(i as int),
        s[k + 2] == '}',
    ensures
        text::contains_text(s, i18n::hole(i)),
{
    reveal_strlit("{");
    reveal_strlit("}");
    assert(i18n::hole(i) =~= seq!['{', text::digit(i as int), '}']);
    assert(s.subrange(k, k + i18n::hole(i).len()) =~= i18n::hole(i));
    assert(text::occurs_at(s, i18n::hole(i), k));
}

/// What the placeholders of a text are whose only brace begins `{0}`.
proof fn lemma_one_argument(s: Seq<char>, p: int)
    requires
        0 <= p,
        p + 2 < s.len(),
        s[p] == '{',
        s[p + 1] == '0',
        s[p + 2] == '}',
        forall|k: int| 0 <= k < s.len() && #[trigger] s[k] == '{' ==> k == p,
    ensures
        simple_braces(s),
        holes(s) == set![0nat],
{
    lemma_hole_here(s, 0, p);
    assert forall|i: nat| holes(s).contains(i) implies i == 0 by {
        let k = choose|k: int| #[trigger] text::occurs_at(s, i18n::hole(i), k);
        lemma_simple_hole(s, i, k);
    }
    assert(holes(s) =~= set![0nat]);
}

/// What the placeholders of a text are whose braces begin `{0}`, `{1}` and `{2}`.
proof fn lemma_three_arguments(s: Seq<char>, p: int)
    requires
        0 <= p,
        p + 11 < s.len(),
        s[p] == '{',
        s[p + 1] == '0',
        s[p + 2] == '}',
        s[p + 5] == '{',
        s[p + 6] == '1',
        s[p + 7] == '}',
        s[p + 9] == '{',
        s[p + 10] == '2',
        s[p + 11] == '}',
        forall|k: int|
            0 <= k < s.len() && #[trigger] s[k] == '{' ==> k == p || k == p + 5 || k == p + 9,
    ensures
        simple_braces(s),
        holes(s) == set![0nat, 1nat, 2nat],
{
    lemma_hole_here(s, 0, p);
    lemma_hole_here(s, 1, p + 5);
    lemma_hole_here(s, 2, p + 9);
    assert forall|i: nat| holes(s).contains(i) implies i <= 2 by {
        let k = choose|k: int| #[trigger] text::occurs_at(s, i18n::hole(i), k);
        lemma_simple_hole(s, i, k);
    }
    assert(holes(s) =~= set![0nat, 1nat, 2nat]);
}

/// The English texts without placeholders.
#[verifier::spinoff_prover]
proof fn lemma_plain_english_texts()
    ensures
        plain("SSH Client"@),
        plain("Sign in to your sync server"@),
        plain("Sync server URL"@),
        plain("Username"@),
        plain("Password"@),
        plain("Show"@),
        plain("Hide"@),
        plain("Login"@),
        plain("Register"@),
        plain("signed in as "@),
        plain("Sync"@),
        plain("Logout"@),
        plain("search hosts"@),
        plain("Connect"@),
        plain("Edit"@),
        plain("no hosts yet - add one below"@),
        plain("Add host"@),
        plain("Edit host"@),
        plain("New"@),
        plain("Name"@),
        plain("Host"@),
        plain("Port"@),
        plain("Save host"@),
        plain("Update host"@),
        plain("Key path (~/.ssh/id_rsa)"@),
        plain("Key passphrase (synced encrypted)"@),
        plain("not connected"@),
        plain("no active sessions - click Connect on a host"@),
        plain("Font"@),
        plain("Clear"@),
        plain("Disconnect"@),
        plain("Copy"@),
        plain("Dark"@),
        plain("Light"@),
        plain("EN"@),
        plain("中文"@),
        plain("http://127.0.0.1:8787"@),
        plain("username"@),
        plain("password"@),
        plain("22"@),
        plain("Menlo"@),
        plain("signing in..."@),
        plain("registering..."@),
        plain("signed in - loading remote hosts..."@),
        plain("syncing..."@),
        plain("sync complete"@),
        plain("deleted"@),
        plain("deleted locally"@),
        plain("host saved - click Sync to upload"@),
        plain("host updated"@),
        plain("disconnected"@),
        plain("session ended"@),
        plain("not signed in"@),
        plain("enter username and password"@),
        plain("name, host and username are required"@),
        plain("no such host"@),
        plain("editing host - click Save to update"@),
        plain("adding a new host"@),
{
    reveal_strlit("SSH Client");
    reveal_strlit("Sign in to your sync server");
    reveal_strlit("Sync server URL");
    reveal_strlit("Username");
    reveal_strlit("Password");
    reveal_strlit("Show");
    reveal_strlit("Hide");
    reveal_strlit("Login");
    reveal_strlit("Register");
    reveal_strlit("signed in as ");
    reveal_strlit("Sync");
    reveal_strlit("Logout");
    reveal_strlit("search hosts");
    reveal_strlit("Connect");
    reveal_strlit("Edit");
    reveal_strlit("no hosts yet - add one below");
    reveal_strlit("Add host");
    reveal_strlit("Edit host");
    reveal_strlit("New");
    reveal_strlit("Name");
    reveal_strlit("Host");
    reveal_strlit("Port");
    reveal_strlit("Save host");
    reveal_strlit("Update host");
    reveal_strlit("Key path (~/.ssh/id_rsa)");
    reveal_strlit("Key passphrase (synced encrypted)");
    reveal_strlit("not connected");
    reveal_strlit("no active sessions - click Connect on a host");
    reveal_strlit("Font");
    reveal_strlit("Clear");
    reveal_strlit("Disconnect");
    reveal_strlit("Copy");
    reveal_strlit("Dark");
    reveal_strlit("Light");
    reveal_strlit("EN");
    reveal_strlit("中文");
    reveal_strlit("http://127.0.0.1:8787");
    reveal_strlit("username");
    reveal_strlit("password");
    reveal_strlit("22");
    reveal_strlit("Menlo");
    reveal_strlit("signing in...");
    reveal_strlit("registering...");
    reveal_strlit("signed in - loading remote hosts...");
    reveal_strlit("syncing...");
    reveal_strlit("sync complete");
    reveal_strlit("deleted");
    reveal_strlit("deleted locally");
    reveal_strlit("host saved - click Sync to upload");
    reveal_strlit("host updated");
    reveal_strlit("disconnected");
    reveal_strlit("session ended");
    reveal_strlit("not signed in");
    reveal_strlit("enter username and password");
    reveal_strlit("name, host and username are required");
    reveal_strlit("no such host");
    reveal_strlit("editing host - click Save to update");
    reveal_strlit("adding a new host");
}

/// The English texts with placeholders.
proof fn lemma_english_texts_with_arguments()
    ensures
        asks_for("sync failed: {0}"@, set![0nat]),
        asks_for("connecting to {0} ({1}x{2})..."@, set![0nat, 1nat, 2nat]),
        asks_for("session ended: {0}"@, set![0nat]),
        asks_for("invalid server url: {0}"@, set![0nat]),
        asks_for("save failed: {0}"@, set![0nat]),
        asks_for("could not save font: {0}"@, set![0nat]),
        asks_for("login failed: {0}"@, set![0nat]),
        asks_for("error: {0}"@, set![0nat]),
        asks_for("copied {0} chars"@, set![0nat]),
{
    reveal_strlit("sync failed: {0}");
    lemma_one_argument("sync failed: {0}"@, 13);
    reveal_strlit("connecting to {0} ({1}x{2})...");
    lemma_three_arguments("connecting to {0} ({1}x{2})..."@, 14);
    reveal_strlit("session ended: {0}");
    lemma_one_argument("session ended: {0}"@, 15);
    reveal_strlit("invalid server url: {0}");
    lemma_one_argument("invalid server url: {0}"@, 20);
    reveal_strlit("save failed: {0}");
    lemma_one_argument("save failed: {0}"@, 13);
    reveal_strlit("could not save font: {0}");
    lemma_one_argument("could not save font: {0}"@, 21);
    reveal_strlit("login failed: {0}");
    lemma_one_argument("login failed: {0}"@, 14);
    reveal_strlit("error: {0}");
    lemma_one_argument("error: {0}"@, 7);
    reveal_strlit("copied {0} chars");
    lemma_one_argument("copied {0} chars"@, 7);
}

/// The Chinese texts without placeholders.
#[verifier::spinoff_prover]
proof fn lemma_plain_chinese_texts()
    ensures
        plain("SSH 客户端"@),
        plain("登录到同步服务器"@),
        plain("同步服务器地址"@),
        plain("用户名"@),
        plain("密码"@),
        plain("显示"@),
        plain("隐藏"@),
        plain("登录"@),
        plain("注册"@),
        plain("已登录："@),
        plain("同步"@),
        plain("退出"@),
        plain("搜索主机"@),
        plain("连接"@),
        plain("编辑"@),
        plain("还没有主机 - 在下方添加"@),
        plain("添加主机"@),
        plain("编辑主机"@),
        plain("新建"@),
        plain("名称"@),
        plain("主机"@),
        plain("端口"@),
        plain("保存主机"@),
        plain("更新主机"@),
        plain("密钥路径 (~/.ssh/id_rsa)"@),
        plain("密钥口令（加密同步）"@),
        plain("未连接"@),
        plain("没有活动会话 - 点击主机的连接"@),
        plain("字体"@),
        plain("清屏"@),
        plain("断开"@),
        plain("复制"@),
        plain("深色"@),
        plain("浅色"@),
        plain("EN"@),
        plain("中文"@),
        plain("http://127.0.0.1:8787"@),
        plain("22"@),
        plain("Menlo"@),
        plain("登录中..."@),
        plain("注册中..."@),
        plain("已登录 - 加载远程主机..."@),
        plain("同步中..."@),
        plain("同步完成"@),
        plain("已删除"@),
        plain("已在本地删除"@),
        plain("主机已保存 - 点击同步上传"@),
        plain("主机已更新"@),
        plain("已断开"@),
        plain("会话结束"@),
        plain("未登录"@),
        plain("请输入用户名和密码"@),
        plain("名称、主机和用户名为必填项"@),
        plain("找不到该主机"@),
        plain("正在编辑主机 - 点击保存以更新"@),
        plain("正在添加新主机"@),
{
    reveal_strlit("SSH 客户端");
    reveal_strlit("登录到同步服务器");
    reveal_strlit("同步服务器地址");
    reveal_strlit("用户名");
    reveal_strlit("密码");
    reveal_strlit("显示");
    reveal_strlit("隐藏");
    reveal_strlit("登录");
    reveal_strlit("注册");
    reveal_strlit("已登录：");
    reveal_strlit("同步");
    reveal_strlit("退出");
    reveal_strlit("搜索主机");
    reveal_strlit("连接");
    reveal_strlit("编辑");
    reveal_strlit("还没有主机 - 在下方添加");
    reveal_strlit("添加主机");
    reveal_strlit("编辑主机");
    reveal_strlit("新建");
    reveal_strlit("名称");
    reveal_strlit("主机");
    reveal_strlit("端口");
    reveal_strlit("保存主机");
    reveal_strlit("更新主机");
    reveal_strlit("密钥路径 (~/.ssh/id_rsa)");
    reveal_strlit("密钥口令（加密同步）");
    reveal_strlit("未连接");
    reveal_strlit("没有活动会话 - 点击主机的连接");
    reveal_strlit("字体");
    reveal_strlit("清屏");
    reveal_strlit("断开");
    reveal_strlit("复制");
    reveal_strlit("深色");
    reveal_strlit("浅色");
    reveal_strlit("EN");
    reveal_strlit("中文");
    reveal_strlit("http://127.0.0.1:8787");
    reveal_strlit("22");
    reveal_strlit("Menlo");
    reveal_strlit("登录中...");
    reveal_strlit("注册中...");
    reveal_strlit("已登录 - 加载远程主机...");
    reveal_strlit("同步中...");
    reveal_strlit("同步完成");
    reveal_strlit("已删除");
    reveal_strlit("已在本地删除");
    reveal_strlit("主机已保存 - 点击同步上传");
    reveal_strlit("主机已更新");
    reveal_strlit("已断开");
    reveal_strlit("会话结束");
    reveal_strlit("未登录");
    reveal_strlit("请输入用户名和密码");
    reveal_strlit("名称、主机和用户名为必填项");
    reveal_strlit("找不到该主机");
    reveal_strlit("正在编辑主机 - 点击保存以更新");
    reveal_strlit("正在添加新主机");
}

/// The Chinese texts with placeholders.
proof fn lemma_chinese_texts_with_arguments()
    ensures
        asks_for("同步失败：{0}"@, set![0nat]),
        asks_for("正在连接 {0} ({1}x{2})..."@, set![0nat, 1nat, 2nat]),
        asks_for("会话结束：{0}"@, set![0nat]),
        asks_for("服务器地址无效：{0}"@, set![0nat]),
        asks_for("保存失败：{0}"@, set![0nat]),
        asks_for("无法保存字体：{0}"@, set![0nat]),
        asks_for("登录失败：{0}"@, set![0nat]),
        asks_for("错误：{0}"@, set![0nat]),
        asks_for("已复制 {0} 个字符"@, set![0nat]),
{
    reveal_strlit("同步失败：{0}");
    lemma_one_argument("同步失败：{0}"@, 5);
    reveal_strlit("正在连接 {0} ({1}x{2})...");
    lemma_three_arguments("正在连接 {0} ({1}x{2})..."@, 5);
    reveal_strlit("会话结束：{0}");
    lemma_one_argument("会话结束：{0}"@, 5);
    reveal_strlit("服务器地址无效：{0}");
    lemma_one_argument("服务器地址无效：{0}"@, 8);
    reveal_strlit("保存失败：{0}");
    lemma_one_argument("保存失败：{0}"@, 5);
    reveal_strlit("无法保存字体：{0}");
    lemma_one_argument("无法保存字体：{0}"@, 7);
    reveal_strlit("登录失败：{0}");
    lemma_one_argument("登录失败：{0}"@, 5);
    reveal_strlit("错误：{0}");
    lemma_one_argument("错误：{0}"@, 3);
    reveal_strlit("已复制 {0} 个字符");
    lemma_one_argument("已复制 {0} 个字符"@, 4);
}

/// The two texts of a key have the same placeholders, and every brace in them begins one.
pub proof fn law_translations_have_the_same_placeholders(i: int)
    requires
        0 <= i < i18n::en_table().len(),
    ensures
        i < i18n::zh_table().len(),
        i18n::zh_table()[i].0 == i18n::en_table()[i].0,
        holes(i18n::zh_table()[i].1) == holes(i18n::en_table()[i].1),
        simple_braces(i18n::en_table()[i].1),
        simple_braces(i18n::zh_table()[i].1),
{
    reveal(i18n::en_table);
    reveal(i18n::zh_table);
    lemma_plain_english_texts();
    lemma_english_texts_with_arguments();
    lemma_plain_chinese_texts();
    lemma_chinese_texts_with_arguments();
    let english = i18n::en_table()[i].1;
    let chinese = i18n::zh_table()[i].1;
    if plain(english) && plain(chinese) {
        lemma_plain_text(english);
        lemma_plain_text(chinese);
    }
}

proof fn lemma_entries_at_one_place(t: Table, u: Table, key: Seq<char>) -> (i: int)
    requires
        i18n::keys(t) == i18n::keys(u),
        i18n::entry_of(t, key) is Some,
    ensures
        0 <= i < t.len() == u.len(),
        i18n::entry_of(t, key) == Some(t[i].1),
        i18n::entry_of(u, key) == Some(u[i].1),
    decreases t.len(),
{
    assert(i18n::keys(t).len() == t.len());
    assert(i18n::keys(u).len() == u.len());
    let last = t.len() - 1;
    assert(i18n::keys(t)[last] == t[last].0);
    assert(i18n::keys(u)[last] == u[last].0);
    if t.last().0 == key {
        last
    } else {
        assert(i18n::keys(t.drop_last()) =~= i18n::keys(t).drop_last());
        assert(i18n::keys(u.drop_last()) =~= i18n::keys(u).drop_last());
        lemma_entries_at_one_place(t.drop_last(), u.drop_last(), key)
    }
}

/// The text that a key of the tables has in a language has the placeholders of its English
/// text, and they are filled in at once.
pub proof fn law_messages_have_the_same_placeholders(lang: Seq<char>, key: Seq<char>)
    requires
        i18n::entry_of(i18n::en_table(), key) is Some,
    ensures
        ({
            let english = i18n::entry_of(i18n::en_table(), key)->0;
            let message = i18n::translated(i18n::catalogue(lang), key);
            holes(message) == holes(english) && simple_braces(message)
        }),
{
    i18n::law_tables_have_the_same_keys();
    i18n::law_fallback(lang, key);
    let i = lemma_entries_at_one_place(i18n::en_table(), i18n::zh_table(), key);
    law_translations_have_the_same_placeholders(i);
}

/// A message of the tables, told with arguments that hold no brace, is its text with each
/// placeholder of an argument replaced by that argument, and nothing else changed.
pub proof fn law_messages_are_told_with_their_arguments(
    lang: Seq<char>,
    key: Seq<char>,
    args: Seq<Seq<char>>,
)
    requires
        i18n::entry_of(i18n::en_table(), key) is Some,
        forall|i: int| 0 <= i < args.len() ==> no_braces(#[trigger] args[i]),
    ensures
        i18n::told(i18n::catalogue(lang), key, args) == substituted(
            i18n::translated(i18n::catalogue(lang), key),
            args,
            args.len() as int,
        ),
{
    let message = i18n::translated(i18n::catalogue(lang), key);
    law_messages_have_the_same_placeholders(lang, key);
    lemma_simple_is_not_nested(message, args.len() as int);
    law_arguments_are_filled_in_at_once(message, args);
}

} // verus!
