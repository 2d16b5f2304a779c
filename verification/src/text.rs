//! Operations on text, stated over the sequence of characters of a string.

use std::str::Chars;
use vstd::prelude::*;
use vstd::std_specs::iter::IteratorSpec;

verus! {

/// `String::push` of std appends one character to the string.
pub assume_specification[ String::push ](s: &mut String, c: char)
    ensures
        final(s)@ == old(s)@.push(c),
;

/// How one text stands to another in the dictionary order.
#[derive(Clone, Copy, Debug, PartialEq, Eq, Structural)]
pub enum Order {
    Less,
    Equal,
    Greater,
}

/// The dictionary order on texts: at the first place where two texts
/// differ the character with the smaller code point decides, and a text
/// that ends there comes before one that goes on.
pub open spec fn lex_lt(a: Seq<char>, b: Seq<char>) -> bool
    decreases a.len(),
{
    if b.len() == 0 {
        false
    } else if a.len() == 0 {
        true
    } else if a[0] != b[0] {
        (a[0] as u32) < (b[0] as u32)
    } else {
        lex_lt(a.skip(1), b.skip(1))
    }
}

/// Compares two texts in the dictionary order.
pub fn compare(a: &str, b: &str) -> (o: Order)
    ensures
        o == Order::Less <==> lex_lt(a@, b@),
        o == Order::Equal <==> a@ == b@,
        o == Order::Greater <==> lex_lt(b@, a@),
{
    let mut ia = a.chars();
    let mut ib = b.chars();
    let ghost mut k: int = 0;
    loop
        invariant
            0 <= k <= a@.len(),
            k <= b@.len(),
            ia.remaining() == a@.skip(k),
            ib.remaining() == b@.skip(k),
            a@.take(k) == b@.take(k),
            lex_lt(a@, b@) == lex_lt(a@.skip(k), b@.skip(k)),
            lex_lt(b@, a@) == lex_lt(b@.skip(k), a@.skip(k)),
        decreases a@.len() - k,
    {
        let x = ia.next();
        let y = ib.next();
        match (x, y) {
            (None, None) => {
                assert(a@ == a@.take(k));
                assert(b@ == b@.take(k));
                return Order::Equal;
            },
            (None, Some(_)) => {
                return Order::Less;
            },
            (Some(_), None) => {
                return Order::Greater;
            },
            (Some(p), Some(q)) => {
                if p != q {
                    proof {
                        vstd::utf8::char_u32_cast(p, p as u32);
                        vstd::utf8::char_u32_cast(q, q as u32);
                    }
                    if (p as u32) < (q as u32) {
                        return Order::Less;
                    } else {
                        return Order::Greater;
                    }
                }
                proof {
                    assert(a@.skip(k).skip(1) == a@.skip(k + 1));
                    assert(b@.skip(k).skip(1) == b@.skip(k + 1));
                    assert(a@.take(k + 1) == a@.take(k).push(a@[k]));
                    assert(b@.take(k + 1) == b@.take(k).push(b@[k]));
                    k = k + 1;
                }
            },
        }
    }
}

/// No text comes before itself.
pub proof fn lemma_lex_lt_irreflexive(a: Seq<char>)
    ensures
        !lex_lt(a, a),
    decreases a.len(),
{
    if a.len() > 0 {
        lemma_lex_lt_irreflexive(a.skip(1));
    }
}

/// Of two texts at most one comes before the other.
pub proof fn lemma_lex_lt_asymmetric(a: Seq<char>, b: Seq<char>)
    ensures
        !(lex_lt(a, b) && lex_lt(b, a)),
    decreases a.len(),
{
    if a.len() > 0 && b.len() > 0 && a[0] == b[0] {
        lemma_lex_lt_asymmetric(a.skip(1), b.skip(1));
    }
}

/// The dictionary order is transitive.
pub proof fn lemma_lex_lt_transitive(a: Seq<char>, b: Seq<char>, c: Seq<char>)
    requires
        lex_lt(a, b),
        lex_lt(b, c),
    ensures
        lex_lt(a, c),
    decreases a.len(),
{
    if a.len() > 0 && b.len() > 0 && c.len() > 0 {
        vstd::utf8::char_u32_cast(a[0], a[0] as u32);
        vstd::utf8::char_u32_cast(b[0], b[0] as u32);
        vstd::utf8::char_u32_cast(c[0], c[0] as u32);
        if a[0] == b[0] && b[0] == c[0] {
            lemma_lex_lt_transitive(a.skip(1), b.skip(1), c.skip(1));
        }
    }
}

/// Whether two texts are the same.
pub fn same_text(a: &str, b: &str) -> (r: bool)
    ensures
        r == (a@ == b@),
{
    compare(a, b) == Order::Equal
}

/// Takes `p` off the front of what `it` has left. Where that does not
/// begin with `p`, `it` is left somewhere in it.
fn take_prefix(it: &mut Chars<'_>, p: &str) -> (r: bool)
    ensures
        r == p@.is_prefix_of((*old(it)).remaining()),
        r ==> (*final(it)).remaining() == (*old(it)).remaining().skip(p@.len() as int),
{
    let ghost s = (*it).remaining();
    let mut ip = p.chars();
    let ghost mut k: int = 0;
    assert(s.skip(0) =~= s);
    loop
        invariant
            s == (*old(it)).remaining(),
            0 <= k <= s.len(),
            k <= p@.len(),
            (*it).remaining() == s.skip(k),
            ip.remaining() == p@.skip(k),
            s.take(k) == p@.take(k),
        decreases p@.len() - k,
    {
        match ip.next() {
            None => {
                assert(p@ == p@.take(k));
                assert(s.subrange(0, k) == s.take(k));
                return true;
            },
            Some(q) => {
                match it.next() {
                    None => {
                        return false;
                    },
                    Some(c) => {
                        if c != q {
                            assert(p@.len() <= s.len() ==> s.subrange(0, p@.len() as int)[k]
                                == s[k]);
                            return false;
                        }
                        proof {
                            assert(s.skip(k).skip(1) == s.skip(k + 1));
                            assert(p@.skip(k).skip(1) == p@.skip(k + 1));
                            assert(s.take(k + 1) == s.take(k).push(s[k]));
                            assert(p@.take(k + 1) == p@.take(k).push(p@[k]));
                            k = k + 1;
                        }
                    },
                }
            },
        }
    }
}

/// What follows `p` in `s`, as far as the next character: `None` where
/// `s` does not begin with `p`, `Some(None)` where `s` ends with `p`, and
/// else the character behind `p`.
pub fn char_after_prefix(s: &str, p: &str) -> (r: Option<Option<char>>)
    ensures
        r is Some <==> p@.is_prefix_of(s@),
        r matches Some(next) ==> next == (if s@.len() > p@.len() {
            Some(s@[p@.len() as int])
        } else {
            None
        }),
{
    let mut it = s.chars();
    if take_prefix(&mut it, p) {
        Some(it.next())
    } else {
        None
    }
}

/// What follows `p` in `s`, where `s` begins with `p`.
pub fn strip_prefix(s: &str, p: &str) -> (r: Option<String>)
    ensures
        r is Some <==> p@.is_prefix_of(s@),
        r matches Some(t) ==> t@ == s@.skip(p@.len() as int),
{
    let mut it = s.chars();
    if !take_prefix(&mut it, p) {
        return None;
    }
    let ghost rest = s@.skip(p@.len() as int);
    let mut t = String::new();
    let ghost mut n: int = 0;
    assert(rest.skip(0) =~= rest);
    loop
        invariant
            p@.is_prefix_of(s@),
            rest == s@.skip(p@.len() as int),
            0 <= n <= rest.len(),
            it.remaining() == rest.skip(n),
            t@ == rest.take(n),
        decreases rest.len() - n,
    {
        match it.next() {
            None => {
                assert(rest == rest.take(n));
                return Some(t);
            },
            Some(c) => {
                t.push(c);
                proof {
                    assert(rest.skip(n).skip(1) == rest.skip(n + 1));
                    assert(rest.take(n + 1) == rest.take(n).push(rest[n]));
                    n = n + 1;
                }
            },
        }
    }
}

/// The first character of `s`, if it has one.
pub fn first_char(s: &str) -> (r: Option<char>)
    ensures
        r == (if s@.len() > 0 { Some(s@[0]) } else { None }),
{
    let mut it = s.chars();
    it.next()
}

/// The last character of `s`, if it has one.
pub fn last_char(s: &str) -> (r: Option<char>)
    ensures
        r == (if s@.len() > 0 { Some(s@.last()) } else { None }),
{
    let mut r: Option<char> = None;
    for c in it: s.chars()
        invariant
            it.seq() == s@,
            r == (if it.index() > 0 { Some(s@[it.index() - 1]) } else { None }),
    {
        r = Some(c);
    }
    r
}

/// A copy of a list of texts.
pub fn clone_texts(v: &Vec<String>) -> (r: Vec<String>)
    ensures
        r.deep_view() == v.deep_view(),
{
    let mut r: Vec<String> = Vec::new();
    let mut i: usize = 0;
    while i < v.len()
        invariant
            i <= v.len(),
            r@.len() == i,
            forall|j: int| 0 <= j < i ==> r@[j]@ == v@[j]@,
        decreases v.len() - i,
    {
        r.push(v[i].clone());
        i += 1;
    }
    assert(r.deep_view() =~= v.deep_view());
    r
}

/// `o` as a borrowed text.
pub fn as_text(o: &Option<String>) -> (r: Option<&str>)
    ensures
        r.deep_view() == o.deep_view(),
{
    match o {
        Some(s) => Some(s.as_str()),
        None => None,
    }
}

/// `a` followed by `b`.
pub fn append(a: &str, b: &str) -> (r: String)
    ensures
        r@ == a@ + b@,
{
    let mut r = a.to_owned();
    r.append(b);
    r
}

/// The digit `d` as a character.
pub open spec fn digit_char(d: nat) -> char {
    "0123456789"@[d as int]
}

/// A number in decimal digits.
pub open spec fn decimal_spec(n: nat) -> Seq<char>
    decreases n,
{
    if n < 10 {
        seq![digit_char(n)]
    } else {
        decimal_spec(n / 10).push(digit_char(n % 10))
    }
}

/// `n` in decimal digits.
pub fn decimal(n: usize) -> (s: String)
    ensures
        s@ == decimal_spec(n as nat),
    decreases n,
{
    proof {
        reveal_strlit("0123456789");
    }
    if n < 10 {
        let mut s = String::new();
        s.push("0123456789".get_char(n));
        assert(s@ =~= seq![digit_char(n as nat)]);
        s
    } else {
        let mut s = decimal(n / 10);
        s.push("0123456789".get_char(n % 10));
        s
    }
}

} // verus!
