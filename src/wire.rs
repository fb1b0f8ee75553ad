//! Byte-level building blocks of the textual wire format: appending,
//! decimal numbers, searching for delimiters and UTF-8 text fields.

use vstd::prelude::*;
use vstd::utf8::*;

verus! {

/// The decimal digits of `n`, most significant first, without leading zeros.
pub open spec fn decimal(n: nat) -> Seq<u8>
    decreases n,
{
    if n < 10 {
        seq![(48 + n) as u8]
    } else {
        decimal(n / 10).push((48 + n % 10) as u8)
    }
}

pub open spec fn is_digit(b: u8) -> bool {
    48 <= b <= 57
}

pub open spec fn all_digits(s: Seq<u8>) -> bool {
    forall|i: int| 0 <= i < s.len() ==> is_digit(#[trigger] s[i])
}

/// The number that a run of decimal digits denotes.
pub open spec fn digits_value(s: Seq<u8>) -> nat
    decreases s.len(),
{
    if s.len() == 0 {
        0
    } else {
        digits_value(s.drop_last()) * 10 + (s.last() - 48) as nat
    }
}

/// The UTF-8 bytes of a text field.
pub open spec fn text(s: Seq<char>) -> Seq<u8> {
    encode_utf8(s)
}

pub proof fn lemma_decimal_digits(n: nat)
    ensures
        decimal(n).len() > 0,
        all_digits(decimal(n)),
        digits_value(decimal(n)) == n,
    decreases n,
{
    let d = decimal(n);
    if n >= 10 {
        lemma_decimal_digits(n / 10);
        assert(d.drop_last() =~= decimal(n / 10));
        assert(n == (n / 10) * 10 + n % 10);
        assert(d.last() == (48 + n % 10) as u8);
        assert(digits_value(d) == digits_value(d.drop_last()) * 10 + (d.last() - 48) as nat);
    } else {
        assert(d.drop_last() =~= Seq::<u8>::empty());
        assert(digits_value(d) == digits_value(d.drop_last()) * 10 + (d.last() - 48) as nat);
    }
}

proof fn lemma_digits_value_prefix(s: Seq<u8>, i: int)
    requires
        0 <= i <= s.len(),
        all_digits(s),
    ensures
        digits_value(s.subrange(0, i)) <= digits_value(s),
    decreases s.len() - i,
{
    if i < s.len() {
        lemma_digits_value_prefix(s, i + 1);
        let p = s.subrange(0, i + 1);
        assert(p.drop_last() =~= s.subrange(0, i));
        assert(is_digit(p.last()));
        let x = digits_value(s.subrange(0, i));
        assert(x * 10 >= x) by (nonlinear_arith);
    } else {
        assert(s.subrange(0, i) =~= s);
    }
}

/// Appends `b` to `out`.
pub fn push_all(out: &mut Vec<u8>, b: &[u8])
    ensures
        final(out)@ == old(out)@ + b@,
{
    let mut i: usize = 0;
    while i < b.len()
        invariant
            i <= b@.len(),
            out@ == old(out)@ + b@.subrange(0, i as int),
        decreases b@.len() - i,
    {
        out.push(b[i]);
        i += 1;
        assert(b@.subrange(0, i as int) =~= b@.subrange(0, i - 1) + seq![b@[i - 1]]);
    }
    assert(b@.subrange(0, i as int) =~= b@);
}

/// Appends the bytes of a text field.
pub fn push_text(out: &mut Vec<u8>, s: &String)
    ensures
        final(out)@ == old(out)@ + text(s@),
{
    push_all(out, s.as_str().as_bytes());
}

/// Appends the decimal form of `n`.
pub fn push_decimal(out: &mut Vec<u8>, n: u64)
    ensures
        final(out)@ == old(out)@ + decimal(n as nat),
    decreases n,
{
    if n >= 10 {
        push_decimal(out, n / 10);
    }
    let d: u8 = 48 + (n % 10) as u8;
    out.push(d);
    if n >= 10 {
        assert(decimal(n as nat) == decimal((n / 10) as nat).push(d));
    } else {
        assert(decimal(n as nat) =~= seq![d]);
    }
}

/// Reads a run of decimal digits as a number no greater than `max`.
pub fn parse_decimal(s: &[u8], max: u64) -> (r: Option<u64>)
    requires
        max < 0x1_0000_0000,
    ensures
        r is Some <==> (s@.len() > 0 && all_digits(s@) && digits_value(s@) <= max),
        r is Some ==> r->0 == digits_value(s@),
{
    if s.len() == 0 {
        return None;
    }
    let mut acc: u64 = 0;
    let mut i: usize = 0;
    while i < s.len()
        invariant
            i <= s@.len(),
            all_digits(s@.subrange(0, i as int)),
            acc == digits_value(s@.subrange(0, i as int)),
            acc <= max,
            max < 0x1_0000_0000,
        decreases s@.len() - i,
    {
        let b = s[i];
        if b < 48 || b > 57 {
            assert(!all_digits(s@));
            return None;
        }
        let next = acc * 10 + (b - 48) as u64;
        assert(s@.subrange(0, i + 1).drop_last() =~= s@.subrange(0, i as int));
        i += 1;
        assert(all_digits(s@.subrange(0, i as int)));
        if next > max {
            proof {
                if all_digits(s@) {
                    lemma_digits_value_prefix(s@, i as int);
                }
            }
            return None;
        }
        acc = next;
    }
    assert(s@.subrange(0, i as int) =~= s@);
    Some(acc)
}

} // verus!

verus! {

/// Whether two byte strings are equal.
pub fn bytes_eq(a: &[u8], b: &[u8]) -> (r: bool)
    ensures
        r == (a@ == b@),
{
    if a.len() != b.len() {
        return false;
    }
    let mut i: usize = 0;
    while i < a.len()
        invariant
            i <= a@.len(),
            a@.len() == b@.len(),
            forall|j: int| 0 <= j < i ==> a@[j] == b@[j],
        decreases a@.len() - i,
    {
        if a[i] != b[i] {
            return false;
        }
        i += 1;
    }
    assert(a@ =~= b@);
    true
}

} // verus!

verus! {

/// Relies on `String::from_utf8`: it succeeds exactly on valid UTF-8, and the
/// string then holds the characters that the bytes encode.
#[verifier::external_body]
fn string_from_utf8(v: Vec<u8>) -> (r: Option<String>)
    ensures
        r is Some <==> valid_utf8(v@),
        r is Some ==> r->0@ == decode_utf8(v@),
{
    String::from_utf8(v).ok()
}

/// The text field that `b` encodes, if `b` is valid UTF-8.
pub fn text_from(b: &[u8]) -> (r: Option<String>)
    ensures
        r is Some <==> valid_utf8(b@),
        r is Some ==> text(r->0@) == b@,
{
    let mut v: Vec<u8> = Vec::new();
    push_all(&mut v, b);
    assert(v@ =~= b@);
    let r = string_from_utf8(v);
    proof {
        if r is Some {
            decode_utf8_encode_utf8(b@);
        }
    }
    r
}

/// The position of the last `x` in `s`, or -1.
pub open spec fn last_index(s: Seq<u8>, x: u8) -> int
    decreases s.len(),
{
    if s.len() == 0 {
        -1
    } else if s.last() == x {
        s.len() - 1
    } else {
        last_index(s.drop_last(), x)
    }
}

/// The position of the first `x` in `s`, or -1.
pub open spec fn first_index(s: Seq<u8>, x: u8) -> int
    decreases s.len(),
{
    if s.len() == 0 {
        -1
    } else if s[0] == x {
        0
    } else if first_index(s.drop_first(), x) < 0 {
        -1
    } else {
        first_index(s.drop_first(), x) + 1
    }
}

pub proof fn lemma_last_index(s: Seq<u8>, x: u8)
    ensures
        -1 <= last_index(s, x) < s.len(),
        last_index(s, x) >= 0 ==> s[last_index(s, x)] == x,
        forall|j: int| last_index(s, x) < j < s.len() ==> s[j] != x,
    decreases s.len(),
{
    if s.len() > 0 && s.last() != x {
        lemma_last_index(s.drop_last(), x);
        assert forall|j: int| last_index(s, x) < j < s.len() implies s[j] != x by {
            if j < s.len() - 1 {
                assert(s[j] == s.drop_last()[j]);
            }
        }
    }
}

pub proof fn lemma_first_index(s: Seq<u8>, x: u8)
    ensures
        -1 <= first_index(s, x) < s.len(),
        first_index(s, x) >= 0 ==> s[first_index(s, x)] == x,
        forall|j: int|
            0 <= j < s.len() && (first_index(s, x) < 0 || j < first_index(s, x)) ==> s[j] != x,
    decreases s.len(),
{
    if s.len() > 0 && s[0] != x {
        lemma_first_index(s.drop_first(), x);
        assert forall|j: int|
            0 <= j < s.len() && (first_index(s, x) < 0 || j < first_index(s, x)) implies s[j]
            != x by {
            if j > 0 {
                assert(s[j] == s.drop_first()[j - 1]);
            }
        }
    }
}

/// A position that satisfies the characterisation of `first_index` is it.
pub proof fn lemma_first_index_at(s: Seq<u8>, x: u8, i: int)
    requires
        0 <= i < s.len(),
        s[i] == x,
        forall|j: int| 0 <= j < i ==> s[j] != x,
    ensures
        first_index(s, x) == i,
{
    lemma_first_index(s, x);
}

/// No position satisfies: then `first_index` is -1.
pub proof fn lemma_first_index_none(s: Seq<u8>, x: u8)
    requires
        forall|j: int| 0 <= j < s.len() ==> s[j] != x,
    ensures
        first_index(s, x) == -1,
{
    lemma_first_index(s, x);
}

pub proof fn lemma_last_index_at(s: Seq<u8>, x: u8, i: int)
    requires
        0 <= i < s.len(),
        s[i] == x,
        forall|j: int| i < j < s.len() ==> s[j] != x,
    ensures
        last_index(s, x) == i,
{
    lemma_last_index(s, x);
}

pub proof fn lemma_last_index_none(s: Seq<u8>, x: u8)
    requires
        forall|j: int| 0 <= j < s.len() ==> s[j] != x,
    ensures
        last_index(s, x) == -1,
{
    lemma_last_index(s, x);
}

/// The position of the last `x` in `s`.
pub fn find_last(s: &[u8], x: u8) -> (r: Option<usize>)
    ensures
        match r {
            Some(i) => i as int == last_index(s@, x) && i < s@.len() && s@[i as int] == x,
            None => last_index(s@, x) == -1,
        },
{
    proof {
        lemma_last_index(s@, x);
    }
    let mut i: usize = s.len();
    while i > 0
        invariant
            i <= s@.len(),
            forall|j: int| i <= j < s@.len() ==> s@[j] != x,
        decreases i,
    {
        i -= 1;
        if s[i] == x {
            proof {
                lemma_last_index_at(s@, x, i as int);
            }
            return Some(i);
        }
    }
    proof {
        lemma_last_index_none(s@, x);
    }
    None
}

/// The position of the first `x` in `s`.
pub fn find_first(s: &[u8], x: u8) -> (r: Option<usize>)
    ensures
        match r {
            Some(i) => i as int == first_index(s@, x) && i < s@.len() && s@[i as int] == x,
            None => first_index(s@, x) == -1,
        },
{
    let mut i: usize = 0;
    while i < s.len()
        invariant
            i <= s@.len(),
            forall|j: int| 0 <= j < i ==> s@[j] != x,
        decreases s@.len() - i,
    {
        if s[i] == x {
            proof {
                lemma_first_index_at(s@, x, i as int);
            }
            return Some(i);
        }
        i += 1;
    }
    proof {
        lemma_first_index_none(s@, x);
    }
    None
}

} // verus!

verus! {

pub open spec fn starts_with(b: Seq<u8>, p: Seq<u8>) -> bool {
    b.len() >= p.len() && b.subrange(0, p.len() as int) == p
}

/// Whether `b` begins with `p`.
pub fn starts_with_exec(b: &[u8], p: &[u8]) -> (r: bool)
    ensures
        r == starts_with(b@, p@),
{
    if b.len() < p.len() {
        return false;
    }
    let head = &b[0..p.len()];
    bytes_eq(head, p)
}

/// ASCII lower case of one byte.
pub open spec fn lower(b: u8) -> u8 {
    if 65 <= b <= 90 {
        (b + 32) as u8
    } else {
        b
    }
}

/// Whether `name` equals the lower-case `lit` when ASCII case is ignored.
pub open spec fn name_matches(name: Seq<u8>, lit: Seq<u8>) -> bool {
    &&& name.len() == lit.len()
    &&& forall|i: int| 0 <= i < name.len() ==> lower(#[trigger] name[i]) == lit[i]
}

pub fn name_matches_exec(name: &[u8], lit: &[u8]) -> (r: bool)
    ensures
        r == name_matches(name@, lit@),
{
    if name.len() != lit.len() {
        return false;
    }
    let mut i: usize = 0;
    while i < name.len()
        invariant
            i <= name@.len(),
            name@.len() == lit@.len(),
            forall|j: int| 0 <= j < i ==> lower(#[trigger] name@[j]) == lit@[j],
        decreases name@.len() - i,
    {
        let c = name[i];
        let l: u8 = if c >= 65 && c <= 90 { c + 32 } else { c };
        if l != lit[i] {
            return false;
        }
        i += 1;
    }
    true
}

} // verus!

verus! {

/// The first position at or after `from` where `\r\n` starts, or -1.
pub open spec fn crlf_index(b: Seq<u8>, from: int) -> int
    decreases b.len() - from,
{
    if from < 0 || from + 1 >= b.len() {
        -1
    } else if b[from] == 13u8 && b[from + 1] == 10u8 {
        from
    } else {
        crlf_index(b, from + 1)
    }
}

pub proof fn lemma_crlf_index(b: Seq<u8>, from: int)
    requires
        0 <= from,
    ensures
        crlf_index(b, from) == -1 || (from <= crlf_index(b, from) && crlf_index(b, from) + 1
            < b.len()),
    decreases b.len() - from,
{
    if from + 1 < b.len() && !(b[from] == 13u8 && b[from + 1] == 10u8) {
        lemma_crlf_index(b, from + 1);
    }
}

/// The position of the first `\r\n` at or after `from`.
pub fn find_crlf(b: &[u8], from: usize) -> (r: Option<usize>)
    ensures
        match r {
            Some(i) => i as int == crlf_index(b@, from as int) && from <= i && i + 1 < b@.len(),
            None => crlf_index(b@, from as int) == -1,
        },
{
    let mut i: usize = from;
    let n = b.len();
    while i < n && i + 1 < n
        invariant
            from <= i,
            n == b@.len(),
            crlf_index(b@, from as int) == crlf_index(b@, i as int),
        decreases n - i,
    {
        if b[i] == 13u8 && b[i + 1] == 10u8 {
            return Some(i);
        }
        i += 1;
    }
    None
}

pub open spec fn is_ws(c: u8) -> bool {
    c == 32u8 || c == 9u8
}

pub open spec fn trim_front(s: Seq<u8>) -> Seq<u8>
    decreases s.len(),
{
    if s.len() > 0 && is_ws(s[0]) {
        trim_front(s.drop_first())
    } else {
        s
    }
}

pub open spec fn trim_back(s: Seq<u8>) -> Seq<u8>
    decreases s.len(),
{
    if s.len() > 0 && is_ws(s.last()) {
        trim_back(s.drop_last())
    } else {
        s
    }
}

/// `s` without the spaces and tabs at either end.
pub open spec fn trim(s: Seq<u8>) -> Seq<u8> {
    trim_back(trim_front(s))
}

pub fn trim_ws(s: &[u8]) -> (r: &[u8])
    ensures
        r@ == trim(s@),
{
    let n = s.len();
    let mut i: usize = 0;
    assert(s@.subrange(0, n as int) =~= s@);
    while i < n && (s[i] == 32u8 || s[i] == 9u8)
        invariant
            i <= n,
            n == s@.len(),
            trim_front(s@) == trim_front(s@.subrange(i as int, n as int)),
        decreases n - i,
    {
        assert(s@.subrange(i as int, n as int).drop_first() =~= s@.subrange(i + 1, n as int));
        i += 1;
    }
    assert(trim_front(s@) == s@.subrange(i as int, n as int));
    let mut j: usize = n;
    while j > i && (s[j - 1] == 32u8 || s[j - 1] == 9u8)
        invariant
            i <= j <= n,
            n == s@.len(),
            trim(s@) == trim_back(s@.subrange(i as int, j as int)),
        decreases j,
    {
        assert(s@.subrange(i as int, j as int).drop_last() =~= s@.subrange(i as int, j - 1));
        j -= 1;
    }
    &s[i..j]
}

} // verus!

verus! {

/// Where `x` first occurs in `a + b`, from where it first occurs in each.
pub proof fn lemma_first_index_concat(a: Seq<u8>, b: Seq<u8>, x: u8)
    ensures
        first_index(a, x) >= 0 ==> first_index(a + b, x) == first_index(a, x),
        first_index(a, x) < 0 && first_index(b, x) >= 0 ==> first_index(a + b, x) == a.len()
            + first_index(b, x),
        first_index(a, x) < 0 && first_index(b, x) < 0 ==> first_index(a + b, x) == -1,
{
    lemma_first_index(a, x);
    lemma_first_index(b, x);
    let s = a + b;
    if first_index(a, x) >= 0 {
        lemma_first_index_at(s, x, first_index(a, x));
    } else if first_index(b, x) >= 0 {
        let i = a.len() + first_index(b, x);
        assert forall|j: int| 0 <= j < i implies s[j] != x by {
            if j >= a.len() {
                assert(s[j] == b[j - a.len()]);
            }
        }
        lemma_first_index_at(s, x, i);
    } else {
        assert forall|j: int| 0 <= j < s.len() implies s[j] != x by {
            if j >= a.len() {
                assert(s[j] == b[j - a.len()]);
            }
        }
        lemma_first_index_none(s, x);
    }
}

/// Where `x` last occurs in `a + b`, from where it last occurs in each.
pub proof fn lemma_last_index_concat(a: Seq<u8>, b: Seq<u8>, x: u8)
    ensures
        last_index(b, x) >= 0 ==> last_index(a + b, x) == a.len() + last_index(b, x),
        last_index(b, x) < 0 ==> last_index(a + b, x) == last_index(a, x),
{
    lemma_last_index(a, x);
    lemma_last_index(b, x);
    let s = a + b;
    if last_index(b, x) >= 0 {
        let i = a.len() + last_index(b, x);
        assert forall|j: int| i < j < s.len() implies s[j] != x by {
            assert(s[j] == b[j - a.len()]);
        }
        lemma_last_index_at(s, x, i);
    } else if last_index(a, x) >= 0 {
        let i = last_index(a, x);
        assert forall|j: int| i < j < s.len() implies s[j] != x by {
            if j >= a.len() {
                assert(s[j] == b[j - a.len()]);
            }
        }
        lemma_last_index_at(s, x, i);
    } else {
        assert forall|j: int| 0 <= j < s.len() implies s[j] != x by {
            if j >= a.len() {
                assert(s[j] == b[j - a.len()]);
            }
        }
        lemma_last_index_none(s, x);
    }
}

/// `crlf_index` only looks at the bytes up to the `\r\n` it finds.
pub proof fn lemma_crlf_index_prefix(s: Seq<u8>, from: int, t: Seq<u8>)
    requires
        0 <= from,
        from + t.len() <= s.len(),
        s.subrange(from, from + t.len()) == t,
        crlf_index(t, 0) >= 0,
    ensures
        crlf_index(s, from) == from + crlf_index(t, 0),
{
    lemma_crlf_index_prefix_from(s, from, t, 0);
}

proof fn lemma_crlf_index_prefix_from(s: Seq<u8>, from: int, t: Seq<u8>, k: int)
    requires
        0 <= from,
        0 <= k,
        from + t.len() <= s.len(),
        s.subrange(from, from + t.len()) == t,
        crlf_index(t, k) >= 0,
    ensures
        crlf_index(s, from + k) == from + crlf_index(t, k),
    decreases t.len() - k,
{
    lemma_crlf_index(t, k);
    assert(s[from + k] == t[k]);
    if !(t[k] == 13u8 && t[k + 1] == 10u8) {
        assert(s[from + k + 1] == t[k + 1]);
        lemma_crlf_index_prefix_from(s, from, t, k + 1);
    } else {
        assert(s[from + k + 1] == t[k + 1]);
    }
}

} // verus!
