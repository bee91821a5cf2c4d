//! Byte-level text predicates shared by the schema and API checks, and the
//! few string builders the service needs (decimal numbers, concatenation).

use vstd::prelude::*;
use vstd::string::StringExecFns;

verus! {

/// The UTF-8 bytes of a character sequence.
pub open spec fn utf8(s: Seq<char>) -> Seq<u8> {
    vstd::utf8::encode_utf8(s)
}

/// The bytes of a string, with their specification.
pub fn str_bytes(s: &str) -> (r: &[u8])
    ensures
        r@ == utf8(s@),
{
    s.as_bytes()
}

/// The bytes of an owned string, with their specification.
pub fn string_bytes(s: &String) -> (r: &[u8])
    ensures
        r@ == utf8(s@),
{
    s.as_str().as_bytes()
}

/// Whether `byte` occurs in `bytes`.
pub open spec fn has_byte(bytes: Seq<u8>, byte: u8) -> bool {
    exists|i: int| 0 <= i < bytes.len() && bytes[i] == byte
}

/// `valid_string` of the schemas: the text holds no NUL character.
pub open spec fn no_nul(bytes: Seq<u8>) -> bool {
    !has_byte(bytes, 0)
}

/// Whether `bytes` contains `byte`.
pub fn contains_byte(bytes: &[u8], byte: u8) -> (r: bool)
    ensures
        r == has_byte(bytes@, byte),
{
    let mut i: usize = 0;
    while i < bytes.len()
        invariant
            i <= bytes@.len(),
            forall|j: int| 0 <= j < i ==> bytes@[j] != byte,
        decreases bytes@.len() - i,
    {
        if bytes[i] == byte {
            return true;
        }
        i = i + 1;
    }
    false
}

/// The text holds no NUL character.
pub fn valid_string(s: &str) -> (r: bool)
    ensures
        r == no_nul(utf8(s@)),
{
    !contains_byte(str_bytes(s), 0)
}

/// ASCII letter or digit.
pub open spec fn is_ascii_alnum(b: u8) -> bool {
    (0x30 <= b <= 0x39) || (0x41 <= b <= 0x5a) || (0x61 <= b <= 0x7a)
}

/// The pieces of `s` between `/` separators, left to right, as `str::split('/')`
/// yields them: an empty input is one empty piece.
pub open spec fn split_slash(s: Seq<u8>) -> Seq<Seq<u8>>
    decreases s.len(),
{
    if s.len() == 0 {
        seq![Seq::<u8>::empty()]
    } else {
        let parts = split_slash(s.drop_last());
        if s.last() == 0x2f {
            parts.push(Seq::<u8>::empty())
        } else {
            parts.update(parts.len() - 1, parts.last().push(s.last()))
        }
    }
}

/// A path component that is neither empty, `.` nor `..`.
pub open spec fn plain_component(c: Seq<u8>) -> bool {
    &&& c.len() != 0
    &&& c != seq![0x2eu8]
    &&& c != seq![0x2eu8, 0x2eu8]
}

/// Every `/`-separated component of `s` is plain.
pub open spec fn plain_components(s: Seq<u8>) -> bool {
    forall|k: int| 0 <= k < split_slash(s).len() ==> plain_component(#[trigger] split_slash(s)[k])
}

proof fn lemma_split_slash_nonempty(s: Seq<u8>)
    ensures
        split_slash(s).len() >= 1,
    decreases s.len(),
{
    if s.len() > 0 {
        lemma_split_slash_nonempty(s.drop_last());
    }
}

/// Whether the bytes `s[start..end]` form a plain component.
fn plain_component_at(s: &[u8], start: usize, end: usize) -> (r: bool)
    requires
        start <= end <= s@.len(),
    ensures
        r == plain_component(s@.subrange(start as int, end as int)),
{
    let n = end - start;
    let r = if n == 0 {
        false
    } else if n == 1 {
        s[start] != 0x2e
    } else if n == 2 {
        !(s[start] == 0x2e && s[start + 1] == 0x2e)
    } else {
        true
    };
    proof {
        let c = s@.subrange(start as int, end as int);
        if n == 1 {
            if c[0] == 0x2e {
                assert(c =~= seq![0x2eu8]);
            } else {
                assert(seq![0x2eu8][0] == 0x2e);
            }
            assert(seq![0x2eu8, 0x2eu8].len() == 2);
        } else if n == 2 {
            if c[0] == 0x2e && c[1] == 0x2e {
                assert(c =~= seq![0x2eu8, 0x2eu8]);
            } else {
                assert(seq![0x2eu8, 0x2eu8][0] == 0x2e);
                assert(seq![0x2eu8, 0x2eu8][1] == 0x2e);
            }
            assert(seq![0x2eu8].len() == 1);
        } else if n > 2 {
            assert(seq![0x2eu8].len() == 1);
            assert(seq![0x2eu8, 0x2eu8].len() == 2);
        }
    }
    r
}

/// Every `/`-separated component of `s` is neither empty, `.` nor `..`.
pub fn all_components_plain(s: &[u8]) -> (r: bool)
    ensures
        r == plain_components(s@),
{
    let mut start: usize = 0;
    let mut i: usize = 0;
    while i < s.len()
        invariant
            start <= i <= s@.len(),
            split_slash(s@.subrange(0, i as int)).len() >= 1,
            split_slash(s@.subrange(0, i as int)).last() == s@.subrange(start as int, i as int),
            forall|k: int|
                0 <= k < split_slash(s@.subrange(0, i as int)).len() - 1 ==> plain_component(
                    #[trigger] split_slash(s@.subrange(0, i as int))[k],
                ),
        decreases s@.len() - i,
    {
        let ghost prev = split_slash(s@.subrange(0, i as int));
        proof {
            assert(s@.subrange(0, i + 1).drop_last() =~= s@.subrange(0, i as int));
            assert(s@.subrange(0, i + 1).last() == s@[i as int]);
        }
        if s[i] == 0x2f {
            if !plain_component_at(s, start, i) {
                proof {
                    assert(prev[prev.len() - 1] == s@.subrange(start as int, i as int));
                    lemma_prefix_component_blocks(s@, i as int, prev.len() - 1);
                }
                return false;
            }
            start = i + 1;
            proof {
                assert(s@.subrange(start as int, i + 1) =~= Seq::<u8>::empty());
            }
        } else {
            proof {
                assert(s@.subrange(start as int, i + 1) =~= s@.subrange(start as int, i as int).push(
                    s@[i as int],
                ));
            }
        }
        i = i + 1;
    }
    let r = plain_component_at(s, start, i);
    proof {
        assert(s@.subrange(0, i as int) =~= s@);
        let parts = split_slash(s@);
        if r {
            assert forall|k: int| 0 <= k < parts.len() implies plain_component(
                #[trigger] parts[k],
            ) by {
                if k < parts.len() - 1 {
                } else {
                    assert(parts[k] == s@.subrange(start as int, i as int));
                }
            }
        } else {
            assert(!plain_component(parts[parts.len() - 1]));
        }
    }
    r
}

/// Once a separator closes a component that is not plain, the whole text has
/// a component that is not plain.
proof fn lemma_prefix_component_blocks(s: Seq<u8>, i: int, k: int)
    requires
        0 <= i < s.len(),
        s[i] == 0x2f,
        0 <= k < split_slash(s.subrange(0, i)).len(),
        !plain_component(split_slash(s.subrange(0, i))[k]),
    ensures
        !plain_components(s),
{
    assert(s.subrange(0, i + 1).drop_last() =~= s.subrange(0, i));
    assert(s.subrange(0, i + 1).last() == 0x2f);
    lemma_split_prefix_stable(s, i + 1, s.len() as int, k);
    assert(s.subrange(0, s.len() as int) =~= s);
    assert(split_slash(s.subrange(0, i + 1))[k] == split_slash(s.subrange(0, i))[k]);
}

/// Components before the last one of a prefix are components of any longer
/// prefix, unchanged.
proof fn lemma_split_prefix_stable(s: Seq<u8>, a: int, b: int, k: int)
    requires
        0 <= a <= b <= s.len(),
        0 <= k < split_slash(s.subrange(0, a)).len() - 1,
    ensures
        k < split_slash(s.subrange(0, b)).len() - 1,
        split_slash(s.subrange(0, b))[k] == split_slash(s.subrange(0, a))[k],
    decreases b - a,
{
    if a < b {
        lemma_split_prefix_stable(s, a, b - 1, k);
        lemma_split_slash_nonempty(s.subrange(0, b - 1));
        assert(s.subrange(0, b).drop_last() =~= s.subrange(0, b - 1));
    }
}

/// The decimal digit character for `d < 10`.
pub open spec fn digit_char(d: nat) -> char {
    if d == 0 {
        '0'
    } else if d == 1 {
        '1'
    } else if d == 2 {
        '2'
    } else if d == 3 {
        '3'
    } else if d == 4 {
        '4'
    } else if d == 5 {
        '5'
    } else if d == 6 {
        '6'
    } else if d == 7 {
        '7'
    } else if d == 8 {
        '8'
    } else {
        '9'
    }
}

/// The decimal text of `n`, as `format!("{}", n)` writes it.
pub open spec fn decimal(n: nat) -> Seq<char>
    decreases n,
{
    if n < 10 {
        seq![digit_char(n)]
    } else {
        decimal(n / 10).push(digit_char(n % 10))
    }
}

fn digit_str(d: u64) -> (r: &'static str)
    requires
        d < 10,
    ensures
        r@ == seq![digit_char(d as nat)],
{
    if d == 0 {
        proof { reveal_strlit("0"); }
        "0"
    } else if d == 1 {
        proof { reveal_strlit("1"); }
        "1"
    } else if d == 2 {
        proof { reveal_strlit("2"); }
        "2"
    } else if d == 3 {
        proof { reveal_strlit("3"); }
        "3"
    } else if d == 4 {
        proof { reveal_strlit("4"); }
        "4"
    } else if d == 5 {
        proof { reveal_strlit("5"); }
        "5"
    } else if d == 6 {
        proof { reveal_strlit("6"); }
        "6"
    } else if d == 7 {
        proof { reveal_strlit("7"); }
        "7"
    } else if d == 8 {
        proof { reveal_strlit("8"); }
        "8"
    } else {
        proof { reveal_strlit("9"); }
        "9"
    }
}

/// Appends the decimal text of `n` to `out`.
pub fn push_decimal(out: &mut String, n: u64)
    ensures
        final(out)@ == old(out)@ + decimal(n as nat),
    decreases n,
{
    if n >= 10 {
        push_decimal(out, n / 10);
    }
    out.append(digit_str(n % 10));
    proof {
        if n >= 10 {
            assert(old(out)@ + decimal(n as nat) =~= old(out)@ + decimal((n / 10) as nat) + seq![
                digit_char((n % 10) as nat),
            ]);
        } else {
            assert(n % 10 == n);
        }
    }
}

/// The decimal text of `n`.
pub fn decimal_text(n: u64) -> (r: String)
    ensures
        r@ == decimal(n as nat),
{
    let mut out = String::new();
    push_decimal(&mut out, n);
    proof {
        assert(Seq::<char>::empty() + decimal(n as nat) =~= decimal(n as nat));
    }
    out
}

/// Whether two byte strings are equal.
pub fn bytes_equal(a: &[u8], b: &[u8]) -> (r: bool)
    ensures
        r == (a@ == b@),
{
    if a.len() != b.len() {
        return false;
    }
    let mut i: usize = 0;
    while i < a.len()
        invariant
            a@.len() == b@.len(),
            i <= a@.len(),
            forall|j: int| 0 <= j < i ==> a@[j] == b@[j],
        decreases a@.len() - i,
    {
        if a[i] != b[i] {
            return false;
        }
        i = i + 1;
    }
    assert(a@ =~= b@);
    true
}

/// Equal texts have equal UTF-8 bytes, and the other way round.
pub proof fn lemma_utf8_injective(a: Seq<char>, b: Seq<char>)
    ensures
        (utf8(a) == utf8(b)) == (a == b),
{
    broadcast use vstd::utf8::encode_utf8_decode_utf8;

    if utf8(a) == utf8(b) {
        assert(vstd::utf8::decode_utf8(utf8(a)) == a);
        assert(vstd::utf8::decode_utf8(utf8(b)) == b);
    }
}

/// A text whose UTF-8 bytes are all below 0x80 has one byte per character.
pub proof fn lemma_ascii_bytes_one_per_char(s: Seq<char>)
    requires
        forall|i: int| 0 <= i < utf8(s).len() ==> #[trigger] utf8(s)[i] < 0x80,
    ensures
        utf8(s).len() == s.len(),
    decreases s.len(),
{
    if s.len() > 0 {
        let c = s[0] as u32;
        let head = vstd::utf8::encode_scalar(c);
        let rest = s.drop_first();
        assert(utf8(s) == head + utf8(rest));
        assert(head.len() >= 1);
        assert(utf8(s)[0] == head[0]);
        assert(c <= 0x7f) by {
            assert(vstd::utf8::has_width_2_encoding(c) ==> vstd::utf8::leading_byte_width_2(c) >= 0xC0)
                by (bit_vector);
            assert(vstd::utf8::has_width_3_encoding(c) ==> vstd::utf8::leading_byte_width_3(c) >= 0xE0)
                by (bit_vector);
            assert(vstd::utf8::leading_byte_width_4(c) >= 0xF0) by (bit_vector);
        }
        assert(head.len() == 1);
        assert forall|i: int| 0 <= i < utf8(rest).len() implies #[trigger] utf8(rest)[i] < 0x80 by {
            assert(utf8(rest)[i] == utf8(s)[i + 1]);
        }
        lemma_ascii_bytes_one_per_char(rest);
    }
}

/// A decimal text has at least one digit, and exactly one for `n < 10`.
proof fn lemma_decimal_len(n: nat)
    ensures
        decimal(n).len() >= 1,
        (decimal(n).len() == 1) == (n < 10),
    decreases n,
{
    if n >= 10 {
        lemma_decimal_len(n / 10);
    }
}

/// Different numbers have different decimal texts.
pub proof fn lemma_decimal_injective(a: nat, b: nat)
    ensures
        (decimal(a) == decimal(b)) == (a == b),
    decreases a,
{
    lemma_decimal_len(a);
    lemma_decimal_len(b);
    if decimal(a) == decimal(b) {
        if a < 10 {
            assert(decimal(a)[0] == decimal(b)[0]);
        } else {
            assert(decimal(a).last() == decimal(b).last());
            assert(decimal(a).drop_last() =~= decimal(a / 10));
            assert(decimal(b).drop_last() =~= decimal(b / 10));
            lemma_decimal_injective(a / 10, b / 10);
            assert(a % 10 == b % 10);
        }
    }
}

/// `a` comes before `b` in byte order, deciding at position `k`: they agree
/// before `k`, and there `a` has ended while `b` goes on, or `a`'s byte is
/// the smaller.
pub open spec fn less_at(a: Seq<u8>, b: Seq<u8>, k: int) -> bool {
    &&& 0 <= k <= a.len()
    &&& k <= b.len()
    &&& a.subrange(0, k) == b.subrange(0, k)
    &&& ((k == a.len() && k < b.len()) || (k < a.len() && k < b.len() && a[k] < b[k]))
}

/// Byte-lexicographic order, the order of `String` keys in an ordered map.
pub open spec fn bytes_less(a: Seq<u8>, b: Seq<u8>) -> bool {
    exists|k: int| less_at(a, b, k)
}

/// No text comes before itself.
pub proof fn lemma_bytes_less_irreflexive(a: Seq<u8>)
    ensures
        !bytes_less(a, a),
{
}

/// Byte order is transitive.
pub proof fn lemma_bytes_less_transitive(a: Seq<u8>, b: Seq<u8>, c: Seq<u8>)
    requires
        bytes_less(a, b),
        bytes_less(b, c),
    ensures
        bytes_less(a, c),
{
    let k1 = choose|k: int| less_at(a, b, k);
    let k2 = choose|k: int| less_at(b, c, k);
    let k = if k1 < k2 { k1 } else { k2 };
    assert(a.subrange(0, k) =~= a.subrange(0, k1).subrange(0, k));
    assert(b.subrange(0, k) =~= b.subrange(0, k1).subrange(0, k));
    assert(b.subrange(0, k) =~= b.subrange(0, k2).subrange(0, k));
    assert(c.subrange(0, k) =~= c.subrange(0, k2).subrange(0, k));
    if k1 < k2 {
        assert(b[k1] == b.subrange(0, k2)[k1]);
        assert(c[k1] == c.subrange(0, k2)[k1]);
    } else if k2 < k1 {
        assert(a[k2] == a.subrange(0, k1)[k2]);
        assert(b[k2] == b.subrange(0, k1)[k2]);
    }
    assert(less_at(a, c, k));
}

/// Of two different texts, one comes before the other in byte order.
pub proof fn lemma_bytes_less_total(a: Seq<u8>, b: Seq<u8>)
    requires
        a != b,
    ensures
        bytes_less(a, b) || bytes_less(b, a),
    decreases a.len(),
{
    if a.len() == 0 {
        assert(b.len() > 0) by {
            if b.len() == 0 {
                assert(a =~= b);
            }
        }
        assert(a.subrange(0, 0) =~= b.subrange(0, 0));
        assert(less_at(a, b, 0));
    } else if b.len() == 0 {
        assert(a.subrange(0, 0) =~= b.subrange(0, 0));
        assert(less_at(b, a, 0));
    } else if a[0] != b[0] {
        assert(a.subrange(0, 0) =~= b.subrange(0, 0));
        if a[0] < b[0] {
            assert(less_at(a, b, 0));
        } else {
            assert(less_at(b, a, 0));
        }
    } else {
        let a1 = a.drop_first();
        let b1 = b.drop_first();
        assert(a1 != b1) by {
            if a1 == b1 {
                assert(a =~= seq![a[0]] + a1);
                assert(b =~= seq![b[0]] + b1);
            }
        }
        lemma_bytes_less_total(a1, b1);
        if bytes_less(a1, b1) {
            let k = choose|k: int| less_at(a1, b1, k);
            assert(a.subrange(0, k + 1) =~= seq![a[0]] + a1.subrange(0, k));
            assert(b.subrange(0, k + 1) =~= seq![b[0]] + b1.subrange(0, k));
            assert(less_at(a, b, k + 1));
        } else {
            let k = choose|k: int| less_at(b1, a1, k);
            assert(a.subrange(0, k + 1) =~= seq![a[0]] + a1.subrange(0, k));
            assert(b.subrange(0, k + 1) =~= seq![b[0]] + b1.subrange(0, k));
            assert(less_at(b, a, k + 1));
        }
    }
}

/// Whether `a` comes before `b` in byte order.
pub fn bytes_before(a: &[u8], b: &[u8]) -> (r: bool)
    ensures
        r == bytes_less(a@, b@),
{
    let mut i: usize = 0;
    while i < a.len() && i < b.len() && a[i] == b[i]
        invariant
            i <= a@.len(),
            i <= b@.len(),
            a@.subrange(0, i as int) == b@.subrange(0, i as int),
        decreases a@.len() - i,
    {
        proof {
            assert(a@.subrange(0, i + 1) =~= a@.subrange(0, i as int).push(a@[i as int]));
            assert(b@.subrange(0, i + 1) =~= b@.subrange(0, i as int).push(b@[i as int]));
        }
        i = i + 1;
    }
    let r = if i < a.len() && i < b.len() {
        a[i] < b[i]
    } else {
        i == a.len() && i < b.len()
    };
    proof {
        if r {
            assert(less_at(a@, b@, i as int));
        } else if bytes_less(a@, b@) {
            let k = choose|k: int| less_at(a@, b@, k);
            if k < i {
                assert(a@[k] == a@.subrange(0, i as int)[k]);
                assert(b@[k] == b@.subrange(0, i as int)[k]);
            } else if k > i {
                assert(a@[i as int] == a@.subrange(0, k)[i as int]);
                assert(b@[i as int] == b@.subrange(0, k)[i as int]);
            }
        }
    }
    r
}

/// Whether two texts are equal, compared byte by byte.
pub fn same_text(a: &str, b: &str) -> (r: bool)
    ensures
        r == (a@ == b@),
{
    let r = bytes_equal(str_bytes(a), str_bytes(b));
    proof {
        lemma_utf8_injective(a@, b@);
    }
    r
}

/// Concatenates three strings.
pub fn concat3(a: &str, b: &str, c: &str) -> (r: String)
    ensures
        r@ == a@ + b@ + c@,
{
    let mut out = String::from_str(a);
    out.append(b);
    out.append(c);
    out
}

/// Appends `bytes` to `out`.
pub fn append_bytes(out: &mut Vec<u8>, bytes: &[u8])
    ensures
        final(out)@ == old(out)@ + bytes@,
{
    let mut i: usize = 0;
    while i < bytes.len()
        invariant
            i <= bytes@.len(),
            out@ == old(out)@ + bytes@.subrange(0, i as int),
        decreases bytes@.len() - i,
    {
        out.push(bytes[i]);
        proof {
            assert(bytes@.subrange(0, i + 1) =~= bytes@.subrange(0, i as int).push(bytes@[i as int]));
        }
        i = i + 1;
    }
    assert(bytes@.subrange(0, bytes@.len() as int) =~= bytes@);
}

/// Concatenates two strings.
pub fn concat(a: &str, b: &str) -> (r: String)
    ensures
        r@ == a@ + b@,
{
    let mut out = String::from_str(a);
    out.append(b);
    out
}

} // verus!
