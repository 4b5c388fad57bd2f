//! URL template rendering.
//!
//! A template is a URL pattern that may contain the placeholder token
//! `{C}`. Rendering replaces every occurrence of the token with
//! `"<worker_id>_<sequence_id>"`, so that each (worker, sequence) pair of
//! the run requests a distinct URL. A template without the token renders
//! unchanged.

use vstd::prelude::*;
use vstd::string::*;

verus! {

/// The placeholder token, as a character sequence.
pub open spec fn placeholder() -> Seq<char> {
    seq!['{', 'C', '}']
}

/// The character for one decimal digit.
pub open spec fn digit_char(d: nat) -> char {
    if d == 0 {
        '0'
    } else if d == 1 {
        '1'
    } else if d == 2 {
        '2'
    } else if d == 3 {
        '3'
    } else if d == 4 {
        '4'
    } else if d == 5 {
        '5'
    } else if d == 6 {
        '6'
    } else if d == 7 {
        '7'
    } else if d == 8 {
        '8'
    } else {
        '9'
    }
}

/// The decimal rendering of a natural number, most significant digit first.
pub open spec fn dec_chars(n: nat) -> Seq<char>
    decreases n,
{
    if n < 10 {
        seq![digit_char(n)]
    } else {
        dec_chars(n / 10).push(digit_char(n % 10))
    }
}

/// The substitution string for one (worker, sequence) pair:
/// the two numbers in decimal, joined by an underscore.
pub open spec fn sub_chars(worker_id: nat, sequence_id: nat) -> Seq<char> {
    dec_chars(worker_id) + seq!['_'] + dec_chars(sequence_id)
}

/// Whether the sequence begins with the placeholder token.
pub open spec fn starts_with_placeholder(t: Seq<char>) -> bool {
    t.len() >= 3 && t.subrange(0, 3) == placeholder()
}

/// The template with every occurrence of the placeholder replaced by
/// `sub`, scanning left to right and never rescanning replaced text.
pub open spec fn replace_chars(t: Seq<char>, sub: Seq<char>) -> Seq<char>
    decreases t.len(),
{
    if t.len() == 0 {
        Seq::<char>::empty()
    } else if starts_with_placeholder(t) {
        sub + replace_chars(t.skip(3), sub)
    } else {
        seq![t[0]] + replace_chars(t.skip(1), sub)
    }
}

/// How many occurrences of the placeholder the left-to-right scan finds.
pub open spec fn occ_count(t: Seq<char>) -> nat
    decreases t.len(),
{
    if t.len() == 0 {
        0
    } else if starts_with_placeholder(t) {
        1 + occ_count(t.skip(3))
    } else {
        occ_count(t.skip(1))
    }
}

/// Whether the scan finds the placeholder at all.
pub open spec fn contains_placeholder(t: Seq<char>) -> bool {
    occ_count(t) > 0
}

/// What rendering a template for one (worker, sequence) pair yields.
pub open spec fn render_spec(t: Seq<char>, worker_id: nat, sequence_id: nat) -> Seq<char> {
    replace_chars(t, sub_chars(worker_id, sequence_id))
}

/// The string slice for one decimal digit.
fn digit_str(d: u64) -> (s: &'static str)
    requires
        d < 10,
    ensures
        s@ == seq![digit_char(d as nat)],
{
    proof {
        reveal_strlit("0");
        reveal_strlit("1");
        reveal_strlit("2");
        reveal_strlit("3");
        reveal_strlit("4");
        reveal_strlit("5");
        reveal_strlit("6");
        reveal_strlit("7");
        reveal_strlit("8");
        reveal_strlit("9");
    }
    let s: &'static str = if d == 0 {
        "0"
    } else if d == 1 {
        "1"
    } else if d == 2 {
        "2"
    } else if d == 3 {
        "3"
    } else if d == 4 {
        "4"
    } else if d == 5 {
        "5"
    } else if d == 6 {
        "6"
    } else if d == 7 {
        "7"
    } else if d == 8 {
        "8"
    } else {
        "9"
    };
    proof {
        assert(s@ =~= seq![digit_char(d as nat)]);
    }
    s
}

/// Renders a number in decimal.
pub fn u64_to_dec(n: u64) -> (s: String)
    ensures
        s@ == dec_chars(n as nat),
    decreases n,
{
    if n < 10 {
        String::from_str(digit_str(n))
    } else {
        let mut s = u64_to_dec(n / 10);
        s.append(digit_str(n % 10));
        proof {
            assert(s@ =~= dec_chars(n as nat));
        }
        s
    }
}

/// Builds the substitution string for one (worker, sequence) pair.
pub fn render_sub(worker_id: u64, sequence_id: u64) -> (s: String)
    ensures
        s@ == sub_chars(worker_id as nat, sequence_id as nat),
{
    proof {
        reveal_strlit("_");
    }
    let mut s = u64_to_dec(worker_id);
    s.append("_");
    let tail = u64_to_dec(sequence_id);
    s.append(tail.as_str());
    proof {
        assert(s@ =~= sub_chars(worker_id as nat, sequence_id as nat));
    }
    s
}

/// A URL pattern that may contain the placeholder token.
#[derive(Debug)]
pub struct RequestTemplate {
    pub pattern: String,
}

impl View for RequestTemplate {
    type V = Seq<char>;

    open spec fn view(&self) -> Seq<char> {
        self.pattern@
    }
}

impl RequestTemplate {
    /// Wraps a URL pattern.
    pub fn new(pattern: String) -> (t: RequestTemplate)
        ensures
            t@ == pattern@,
    {
        RequestTemplate { pattern }
    }

    /// Renders the concrete URL for one (worker, sequence) pair: every
    /// occurrence of the placeholder is replaced by the pair's
    /// substitution string; a template without the placeholder comes back
    /// unchanged.
    pub fn render(&self, worker_id: u64, sequence_id: u64) -> (url: String)
        ensures
            url@ == render_spec(self@, worker_id as nat, sequence_id as nat),
    {
        let sub = render_sub(worker_id, sequence_id);
        let t: &str = self.pattern.as_str();
        let n = t.unicode_len();
        let mut out = String::new();
        let mut i: usize = 0;
        proof {
            assert(t@.skip(0) =~= t@);
        }
        while i < n
            invariant
                n == t@.len(),
                i <= n,
                sub@ == sub_chars(worker_id as nat, sequence_id as nat),
                replace_chars(t@, sub@) == out@ + replace_chars(t@.skip(i as int), sub@),
            decreases n - i,
        {
            let is_match = n - i >= 3 && t.get_char(i) == '{' && t.get_char(i + 1) == 'C'
                && t.get_char(i + 2) == '}';
            if is_match {
                proof {
                    lemma_replace_step_here(t@, sub@, i as int);
                }
                out.append(sub.as_str());
                i = i + 3;
            } else {
                proof {
                    lemma_replace_step_char(t@, sub@, i as int);
                }
                let piece = t.substring_char(i, i + 1);
                proof {
                    assert(piece@ =~= seq![t@[i as int]]);
                }
                out.append(piece);
                i = i + 1;
            }
        }
        proof {
            assert(t@.skip(n as int) =~= Seq::<char>::empty());
            assert(out@ + Seq::<char>::empty() =~= out@);
        }
        out
    }
}

/// Whether a character is a decimal digit.
pub open spec fn is_dec_digit(c: char) -> bool {
    c == '0' || c == '1' || c == '2' || c == '3' || c == '4' || c == '5' || c == '6' || c == '7'
        || c == '8' || c == '9'
}

/// Every character of a decimal rendering is a digit.
proof fn lemma_dec_chars_digits(n: nat)
    ensures
        forall|j: int| 0 <= j < dec_chars(n).len() ==> is_dec_digit(dec_chars(n)[j]),
    decreases n,
{
    if n < 10 {
        assert(dec_chars(n) == seq![digit_char(n)]);
        assert(is_dec_digit(digit_char(n)));
        assert(dec_chars(n)[0] == digit_char(n));
    } else {
        lemma_dec_chars_digits(n / 10);
        assert(dec_chars(n) == dec_chars(n / 10).push(digit_char(n % 10)));
        assert(is_dec_digit(digit_char(n % 10)));
        assert forall|j: int| 0 <= j < dec_chars(n).len() implies is_dec_digit(
            dec_chars(n)[j],
        ) by {
            if j < dec_chars(n / 10).len() {
                assert(dec_chars(n)[j] == dec_chars(n / 10)[j]);
            } else {
                assert(dec_chars(n)[j] == digit_char(n % 10));
            }
        }
    }
}

/// A decimal rendering is never empty, and has one digit exactly for
/// numbers under ten.
proof fn lemma_dec_chars_len(n: nat)
    ensures
        dec_chars(n).len() >= 1,
        dec_chars(n).len() == 1 <==> n < 10,
    decreases n,
{
    if n >= 10 {
        lemma_dec_chars_len(n / 10);
    }
}

/// Distinct numbers have distinct decimal renderings.
proof fn lemma_dec_chars_injective(a: nat, b: nat)
    requires
        dec_chars(a) == dec_chars(b),
    ensures
        a == b,
    decreases a,
{
    lemma_dec_chars_len(a);
    lemma_dec_chars_len(b);
    if a < 10 && b < 10 {
        assert(dec_chars(a)[0] == dec_chars(b)[0]);
        assert(dec_chars(a)[0] == digit_char(a));
        assert(dec_chars(b)[0] == digit_char(b));
        assert(digit_char(a) == digit_char(b));
        assert(a == b);
    } else if a >= 10 && b >= 10 {
        assert(dec_chars(a) == dec_chars(a / 10).push(digit_char(a % 10)));
        assert(dec_chars(b) == dec_chars(b / 10).push(digit_char(b % 10)));
        assert(dec_chars(a).last() == digit_char(a % 10));
        assert(dec_chars(b).last() == digit_char(b % 10));
        assert(a % 10 == b % 10);
        assert(dec_chars(a).drop_last() =~= dec_chars(a / 10));
        assert(dec_chars(b).drop_last() =~= dec_chars(b / 10));
        lemma_dec_chars_injective(a / 10, b / 10);
        vstd::arithmetic::div_mod::lemma_fundamental_div_mod(a as int, 10);
        vstd::arithmetic::div_mod::lemma_fundamental_div_mod(b as int, 10);
        assert(a / 10 == b / 10);
        assert(a == b);
    } else {
        assert(dec_chars(a).len() == dec_chars(b).len());
        assert(false);
    }
}

/// Distinct (worker, sequence) pairs have distinct substitution strings:
/// the underscore separator is not a digit, so it splits the string in
/// only one way.
proof fn lemma_sub_chars_injective(w1: nat, c1: nat, w2: nat, c2: nat)
    requires
        sub_chars(w1, c1) == sub_chars(w2, c2),
    ensures
        w1 == w2,
        c1 == c2,
{
    let a1 = dec_chars(w1);
    let b1 = dec_chars(c1);
    let a2 = dec_chars(w2);
    let b2 = dec_chars(c2);
    let s1 = sub_chars(w1, c1);
    let s2 = sub_chars(w2, c2);
    lemma_dec_chars_digits(w1);
    lemma_dec_chars_digits(w2);
    lemma_dec_chars_digits(c1);
    lemma_dec_chars_digits(c2);
    assert(s1.len() == a1.len() + 1 + b1.len());
    assert(s2.len() == a2.len() + 1 + b2.len());
    assert(forall|j: int| 0 <= j < a1.len() ==> s1[j] == a1[j]);
    assert(forall|j: int| 0 <= j < a2.len() ==> s2[j] == a2[j]);
    assert(s1[a1.len() as int] == '_');
    assert(s2[a2.len() as int] == '_');
    if a1.len() < a2.len() {
        assert(is_dec_digit(s2[a1.len() as int]));
        assert(false);
    }
    if a2.len() < a1.len() {
        assert(is_dec_digit(s1[a2.len() as int]));
        assert(false);
    }
    assert(a1 =~= a2);
    lemma_dec_chars_injective(w1, w2);
    assert(b1.len() == b2.len());
    assert(forall|k: int| 0 <= k < b1.len() ==> b1[k] == s1[a1.len() + 1 + k]);
    assert(forall|k: int| 0 <= k < b2.len() ==> b2[k] == s2[a2.len() + 1 + k]);
    assert(b1 =~= b2);
    lemma_dec_chars_injective(c1, c2);
}

/// The length of a replacement, in terms of the occurrence count and the
/// substitution's length.
proof fn lemma_replace_len(t: Seq<char>, sub: Seq<char>)
    ensures
        replace_chars(t, sub).len() + 3 * occ_count(t) == t.len() + occ_count(t) * sub.len(),
    decreases t.len(),
{
    if t.len() == 0 {
        assert(replace_chars(t, sub).len() == 0);
        assert(occ_count(t) == 0);
        assert(replace_chars(t, sub).len() + 3 * occ_count(t) == t.len() + occ_count(t)
            * sub.len());
    } else if starts_with_placeholder(t) {
        lemma_replace_len(t.skip(3), sub);
        let o3 = occ_count(t.skip(3));
        assert(replace_chars(t, sub) == sub + replace_chars(t.skip(3), sub));
        assert(occ_count(t) == 1 + o3);
        assert(t.skip(3).len() == t.len() - 3);
        assert((1 + o3) * sub.len() == sub.len() + o3 * sub.len()) by (nonlinear_arith);
        assert(replace_chars(t, sub).len() + 3 * occ_count(t) == t.len() + occ_count(t)
            * sub.len());
    } else {
        lemma_replace_len(t.skip(1), sub);
        assert(replace_chars(t, sub) == seq![t[0]] + replace_chars(t.skip(1), sub));
        assert(occ_count(t) == occ_count(t.skip(1)));
        assert(t.skip(1).len() == t.len() - 1);
        assert(replace_chars(t, sub).len() + 3 * occ_count(t) == t.len() + occ_count(t)
            * sub.len());
    }
}

/// Replacement with substitutions of equal length but different content
/// yields different results, as soon as the placeholder occurs at all.
proof fn lemma_replace_injective_samelen(t: Seq<char>, s1: Seq<char>, s2: Seq<char>)
    requires
        occ_count(t) >= 1,
        s1 != s2,
        s1.len() == s2.len(),
    ensures
        replace_chars(t, s1) != replace_chars(t, s2),
    decreases t.len(),
{
    let r1 = replace_chars(t, s1);
    let r2 = replace_chars(t, s2);
    if starts_with_placeholder(t) {
        assert(exists|j: int| 0 <= j < s1.len() && s1[j] != s2[j]) by {
            if forall|j: int| 0 <= j < s1.len() ==> s1[j] == s2[j] {
                assert(s1 =~= s2);
                assert(false);
            }
        }
        let d = choose|j: int| 0 <= j < s1.len() && s1[j] != s2[j];
        assert(r1[d] == s1[d]);
        assert(r2[d] == s2[d]);
        assert(r1 != r2);
    } else {
        assert(t.len() > 0);
        lemma_replace_injective_samelen(t.skip(1), s1, s2);
        assert(r1.skip(1) =~= replace_chars(t.skip(1), s1));
        assert(r2.skip(1) =~= replace_chars(t.skip(1), s2));
        if r1 == r2 {
            assert(replace_chars(t.skip(1), s1) == replace_chars(t.skip(1), s2));
            assert(false);
        }
    }
}

/// Replacement is injective in the substitution whenever the placeholder
/// occurs in the template.
proof fn lemma_replace_injective(t: Seq<char>, s1: Seq<char>, s2: Seq<char>)
    requires
        occ_count(t) >= 1,
        s1 != s2,
    ensures
        replace_chars(t, s1) != replace_chars(t, s2),
{
    if s1.len() != s2.len() {
        lemma_replace_len(t, s1);
        lemma_replace_len(t, s2);
        let k = occ_count(t);
        assert(k * s1.len() != k * s2.len()) by (nonlinear_arith)
            requires
                k >= 1,
                s1.len() != s2.len(),
        ;
        assert(replace_chars(t, s1).len() != replace_chars(t, s2).len());
    } else {
        lemma_replace_injective_samelen(t, s1, s2);
    }
}

/// A template in which the scan finds no placeholder renders unchanged,
/// whatever the substitution.
pub proof fn lemma_render_no_placeholder(t: Seq<char>, sub: Seq<char>)
    requires
        !contains_placeholder(t),
    ensures
        replace_chars(t, sub) == t,
    decreases t.len(),
{
    if t.len() == 0 {
        assert(replace_chars(t, sub) =~= t);
    } else {
        assert(!starts_with_placeholder(t));
        lemma_render_no_placeholder(t.skip(1), sub);
        assert(seq![t[0]] + t.skip(1) =~= t);
    }
}

/// Rendering is injective over (worker, sequence) pairs for a fixed
/// template that contains the placeholder token: no two distinct pairs
/// render the same URL.
pub proof fn lemma_render_injective(t: Seq<char>, w1: nat, c1: nat, w2: nat, c2: nat)
    requires
        contains_placeholder(t),
        w1 != w2 || c1 != c2,
    ensures
        render_spec(t, w1, c1) != render_spec(t, w2, c2),
{
    if sub_chars(w1, c1) == sub_chars(w2, c2) {
        lemma_sub_chars_injective(w1, c1, w2, c2);
        assert(false);
    }
    lemma_replace_injective(t, sub_chars(w1, c1), sub_chars(w2, c2));
}

/// At a position where the placeholder stands, the remaining replacement
/// is the substitution followed by the replacement of what comes after
/// the token.
proof fn lemma_replace_step_here(t: Seq<char>, sub: Seq<char>, i: int)
    requires
        0 <= i,
        i + 3 <= t.len(),
        t[i] == '{',
        t[i + 1] == 'C',
        t[i + 2] == '}',
    ensures
        replace_chars(t.skip(i), sub) == sub + replace_chars(t.skip(i + 3), sub),
{
    let u = t.skip(i);
    assert(u.subrange(0, 3) =~= placeholder());
    assert(u.skip(3) =~= t.skip(i + 3));
}

/// At a position where the placeholder does not stand, the remaining
/// replacement keeps the character there and goes on.
proof fn lemma_replace_step_char(t: Seq<char>, sub: Seq<char>, i: int)
    requires
        0 <= i < t.len(),
        !(i + 3 <= t.len() && t[i] == '{' && t[i + 1] == 'C' && t[i + 2] == '}'),
    ensures
        replace_chars(t.skip(i), sub) == seq![t[i]] + replace_chars(t.skip(i + 1), sub),
{
    let u = t.skip(i);
    assert(u.len() == t.len() - i);
    if u.len() >= 3 {
        assert(u.subrange(0, 3)[0] == t[i]);
        assert(u.subrange(0, 3)[1] == t[i + 1]);
        assert(u.subrange(0, 3)[2] == t[i + 2]);
        assert(!starts_with_placeholder(u));
    }
    assert(u[0] == t[i]);
    assert(u.skip(1) =~= t.skip(i + 1));
}

} // verus!
