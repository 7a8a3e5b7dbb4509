//! Byte-level helpers shared by the text formats of the runtime.

use vstd::prelude::*;
use vstd::utf8::*;

verus! {

/// The UTF-8 bytes of a character sequence.
pub open spec fn utf8_bytes(s: Seq<char>) -> Seq<u8> {
    encode_utf8(s)
}

/// Two strings are equal exactly when their UTF-8 encodings are equal.
pub proof fn lemma_utf8_bytes_injective(a: Seq<char>, b: Seq<char>)
    ensures
        (utf8_bytes(a) == utf8_bytes(b)) == (a == b),
{
    encode_utf8_decode_utf8(a);
    encode_utf8_decode_utf8(b);
}

/// Byte-wise equality of two slices.
pub fn bytes_eq(a: &[u8], b: &[u8]) -> (r: bool)
    ensures
        r == (a@ == b@),
{
    if a.len() != b.len() {
        return false;
    }
    let mut i: usize = 0;
    while i < a.len()
        invariant
            a.len() == b.len(),
            i <= a.len(),
            forall|j: int| 0 <= j < i ==> a@[j] == b@[j],
        decreases a.len() - i,
    {
        if a[i] != b[i] {
            return false;
        }
        i = i + 1;
    }
    assert(a@ =~= b@);
    true
}

/// Equality of two strings, decided on their bytes.
pub fn str_eq(a: &str, b: &str) -> (r: bool)
    ensures
        r == (a@ == b@),
{
    let r = bytes_eq(a.as_bytes(), b.as_bytes());
    proof {
        lemma_utf8_bytes_injective(a@, b@);
    }
    r
}

/// What `{:?}` prints for a string: the text in double quotes with the
/// characters escaped as `char::escape_debug` escapes them.
pub uninterp spec fn debug_quoted(s: Seq<char>) -> Seq<char>;

/// Formats a string with `Debug`, as `format!("{s:?}")` does.
#[verifier::external_body]
pub fn debug_quote(s: &str) -> (r: String)
    ensures
        r@ == debug_quoted(s@),
{
    format!("{s:?}")
}

/// Builds a `String` from bytes that are valid UTF-8, with `String::from_utf8`.
#[verifier::external_body]
pub fn string_from_utf8(bytes: Vec<u8>) -> (s: String)
    requires
        valid_utf8(bytes@),
    ensures
        s@ == decode_utf8(bytes@),
{
    String::from_utf8(bytes).unwrap_or_default()
}

/// Concatenates two strings.
pub fn concat_str(a: &str, b: &str) -> (r: String)
    ensures
        r@ == a@ + b@,
{
    let mut r = a.to_owned();
    r.append(b);
    r
}

/// The pieces of `s` between the separators, as `str::split` yields them:
/// there is always one piece more than there are separators.
pub open spec fn split_on(s: Seq<u8>, sep: u8) -> Seq<Seq<u8>>
    decreases s.len(),
{
    if s.len() == 0 {
        seq![Seq::<u8>::empty()]
    } else {
        let rest = split_on(s.drop_first(), sep);
        if s[0] == sep {
            seq![Seq::<u8>::empty()] + rest
        } else {
            rest.update(0, seq![s[0]] + rest[0])
        }
    }
}

/// `split_on` with `cur` put in front of the first piece.
pub open spec fn split_on_after(cur: Seq<u8>, s: Seq<u8>, sep: u8) -> Seq<Seq<u8>> {
    let r = split_on(s, sep);
    r.update(0, cur + r[0])
}

pub proof fn lemma_split_on_nonempty(s: Seq<u8>, sep: u8)
    ensures
        split_on(s, sep).len() >= 1,
    decreases s.len(),
{
    if s.len() > 0 {
        lemma_split_on_nonempty(s.drop_first(), sep);
    }
}

/// Splits bytes at every occurrence of a separator.
pub fn split_bytes(s: &[u8], sep: u8) -> (parts: Vec<Vec<u8>>)
    ensures
        parts@.map_values(|v: Vec<u8>| v@) == split_on(s@, sep),
{
    let mut parts: Vec<Vec<u8>> = Vec::new();
    let mut cur: Vec<u8> = Vec::new();
    let mut i: usize = 0;
    assert(s@.subrange(0, s@.len() as int) =~= s@);
    proof {
        lemma_split_on_nonempty(s@, sep);
        assert(split_on_after(cur@, s@, sep) =~= split_on(s@, sep));
    }
    while i < s.len()
        invariant
            i <= s.len(),
            parts@.map_values(|v: Vec<u8>| v@) + split_on_after(cur@, s@.subrange(i as int, s@.len() as int), sep)
                == split_on(s@, sep),
        decreases s.len() - i,
    {
        let ghost rest = s@.subrange(i as int, s@.len() as int);
        let ghost rest2 = s@.subrange(i + 1, s@.len() as int);
        assert(rest.drop_first() =~= rest2);
        proof {
            lemma_split_on_nonempty(rest2, sep);
        }
        let ghost before = parts@.map_values(|v: Vec<u8>| v@);
        if s[i] == sep {
            let mut done: Vec<u8> = Vec::new();
            std::mem::swap(&mut done, &mut cur);
            let ghost d = done@;
            parts.push(done);
            assert(parts@.map_values(|v: Vec<u8>| v@) =~= before.push(d));
            assert(split_on_after(d, rest, sep) =~= seq![d] + split_on_after(cur@, rest2, sep));
            assert(before + split_on_after(d, rest, sep) =~= before.push(d) + split_on_after(cur@, rest2, sep));
        } else {
            let ghost c0 = cur@;
            cur.push(s[i]);
            assert(c0 + (seq![s@[i as int]] + split_on(rest2, sep)[0]) =~= cur@ + split_on(rest2, sep)[0]);
            assert(split_on_after(c0, rest, sep) =~= split_on_after(cur@, rest2, sep));
        }
        i = i + 1;
    }
    let ghost before = parts@.map_values(|v: Vec<u8>| v@);
    let ghost c = cur@;
    parts.push(cur);
    assert(s@.subrange(i as int, s@.len() as int) =~= Seq::<u8>::empty());
    assert(split_on_after(c, Seq::<u8>::empty(), sep) =~= seq![c]);
    assert(parts@.map_values(|v: Vec<u8>| v@) =~= before.push(c));
    assert(before + seq![c] =~= before.push(c));
    parts
}

/// Whether a byte occurs in a slice.
pub fn contains_byte(s: &[u8], b: u8) -> (r: bool)
    ensures
        r == s@.contains(b),
{
    let mut i: usize = 0;
    while i < s.len()
        invariant
            i <= s.len(),
            forall|j: int| 0 <= j < i ==> s@[j] != b,
        decreases s.len() - i,
    {
        if s[i] == b {
            assert(s@[i as int] == b);
            return true;
        }
        i = i + 1;
    }
    false
}

/// Copies a slice into a vector.
pub fn bytes_to_vec(s: &[u8]) -> (v: Vec<u8>)
    ensures
        v@ == s@,
{
    let mut v: Vec<u8> = Vec::new();
    let mut i: usize = 0;
    while i < s.len()
        invariant
            i <= s.len(),
            v@ == s@.subrange(0, i as int),
        decreases s.len() - i,
    {
        v.push(s[i]);
        i = i + 1;
        assert(v@ =~= s@.subrange(0, i as int));
    }
    assert(s@.subrange(0, s@.len() as int) =~= s@);
    v
}

/// The characters with the Unicode `White_Space` property, which is what
/// `char::is_whitespace` tests.
pub open spec fn is_white_space(c: char) -> bool {
    let v = c as u32;
    (0x09 <= v && v <= 0x0D) || v == 0x20 || v == 0x85 || v == 0xA0 || v == 0x1680 || (0x2000 <= v
        && v <= 0x200A) || v == 0x2028 || v == 0x2029 || v == 0x202F || v == 0x205F || v == 0x3000
}

/// A string with nothing but white space in it: what `str::trim` leaves
/// empty.
pub open spec fn is_blank(s: Seq<char>) -> bool {
    forall|i: int| 0 <= i < s.len() ==> is_white_space(#[trigger] s[i])
}

pub fn is_whitespace_char(c: char) -> (r: bool)
    ensures
        r == is_white_space(c),
{
    let v = c as u32;
    (0x09 <= v && v <= 0x0D) || v == 0x20 || v == 0x85 || v == 0xA0 || v == 0x1680 || (0x2000 <= v
        && v <= 0x200A) || v == 0x2028 || v == 0x2029 || v == 0x202F || v == 0x205F || v == 0x3000
}

/// Whether `s.trim()` is empty.
pub fn str_is_blank(s: &str) -> (r: bool)
    ensures
        r == is_blank(s@),
{
    let b = s.as_bytes();
    proof {
        encode_utf8_valid_utf8(s@);
        crate::sanitize::lemma_runes_valid(b@);
        encode_utf8_decode_utf8(s@);
    }
    let mut pos: usize = 0;
    assert(b@.subrange(0, b@.len() as int) =~= b@);
    while pos < b.len()
        invariant
            pos <= b@.len(),
            is_blank(s@) == is_blank(crate::sanitize::runes(b@.subrange(pos as int, b@.len() as int))),
        decreases b.len() - pos,
    {
        let rest = &b[pos..b.len()];
        let (c, n) = crate::sanitize::decode_rune(rest);
        let ghost rs = crate::sanitize::runes(rest@);
        let ghost tail = crate::sanitize::runes(rest@.subrange(n as int, rest@.len() as int));
        assert(rs == seq![c] + tail);
        assert(rest@.subrange(n as int, rest@.len() as int) =~= b@.subrange(pos + n, b@.len() as int));
        assert(is_blank(rs) == (is_white_space(c) && is_blank(tail))) by {
            if is_blank(rs) {
                assert(rs[0] == c);
                assert forall|i: int| 0 <= i < tail.len() implies is_white_space(#[trigger] tail[i]) by {
                    assert(tail[i] == rs[i + 1]);
                }
            }
            if is_white_space(c) && is_blank(tail) {
                assert forall|i: int| 0 <= i < rs.len() implies is_white_space(#[trigger] rs[i]) by {
                    if i > 0 {
                        assert(rs[i] == tail[i - 1]);
                    }
                }
            }
        }
        if !is_whitespace_char(c) {
            return false;
        }
        pos = pos + n;
    }
    true
}

/// ASCII bytes read as characters.
pub open spec fn ascii_chars(b: Seq<u8>) -> Seq<char> {
    Seq::new(b.len(), |i: int| b[i] as char)
}

pub open spec fn all_ascii(b: Seq<u8>) -> bool {
    forall|i: int| 0 <= i < b.len() ==> #[trigger] b[i] < 0x80u8
}

/// ASCII bytes are their own UTF-8 encoding.
pub proof fn lemma_ascii_utf8(b: Seq<u8>)
    requires
        all_ascii(b),
    ensures
        valid_utf8(b),
        decode_utf8(b) == ascii_chars(b),
        utf8_bytes(ascii_chars(b)) == b,
    decreases b.len(),
{
    if b.len() > 0 {
        let rest = b.drop_first();
        assert(pop_first_scalar(b) =~= rest);
        assert forall|i: int| 0 <= i < rest.len() implies #[trigger] rest[i] < 0x80u8 by {
            assert(rest[i] == b[i + 1]);
        }
        lemma_ascii_utf8(rest);
        let b0 = b[0];
        assert((b0 & 0x7F) as u32 == b0 as u32) by (bit_vector)
            requires b0 < 0x80u8;
        assert(decode_utf8(b) =~= ascii_chars(b)) by {
            assert(ascii_chars(b) =~= seq![b0 as char] + ascii_chars(rest));
        }
        let cs = ascii_chars(b);
        assert(cs.drop_first() =~= ascii_chars(rest));
        assert((b0 as char) as u32 == b0 as u32);
        assert(leading_byte_width_1(b0 as u32) == b0) by (bit_vector)
            requires b0 < 0x80u8;
        assert(encode_scalar(cs[0] as u32) =~= seq![b0]);
        assert(utf8_bytes(cs) =~= seq![b0] + rest);
        assert(seq![b0] + rest =~= b);
    }
}

/// Builds a `String` from ASCII bytes.
pub fn ascii_string(v: Vec<u8>) -> (s: String)
    requires
        all_ascii(v@),
    ensures
        s@ == ascii_chars(v@),
{
    proof {
        lemma_ascii_utf8(v@);
    }
    string_from_utf8(v)
}

/// The decimal digits of a number, most significant first, as ASCII bytes.
pub open spec fn decimal(n: nat) -> Seq<u8>
    decreases n,
{
    if n < 10 {
        seq![(0x30 + n) as u8]
    } else {
        decimal(n / 10).push((0x30 + n % 10) as u8)
    }
}

/// `s` with `0` in front up to `width` bytes.
pub open spec fn zero_pad(s: Seq<u8>, width: nat) -> Seq<u8> {
    if s.len() >= width {
        s
    } else {
        Seq::new((width - s.len()) as nat, |i: int| 0x30u8) + s
    }
}

pub proof fn lemma_decimal_ascii(n: nat)
    ensures
        all_ascii(decimal(n)),
        decimal(n).len() >= 1,
        forall|i: int| 0 <= i < decimal(n).len() ==> 0x30 <= #[trigger] decimal(n)[i] <= 0x39,
    decreases n,
{
    if n >= 10 {
        lemma_decimal_ascii(n / 10);
    }
}

/// Appends the decimal digits of `n`.
pub fn push_decimal(buf: &mut Vec<u8>, n: u64)
    ensures
        final(buf)@ == old(buf)@ + decimal(n as nat),
    decreases n,
{
    if n < 10 {
        buf.push((0x30 + n) as u8);
        assert(decimal(n as nat) =~= seq![(0x30 + n) as u8]);
    } else {
        push_decimal(buf, n / 10);
        let ghost mid = buf@;
        buf.push((0x30 + n % 10) as u8);
        assert(buf@ =~= old(buf)@ + decimal(n as nat));
    }
}

/// Appends the decimal digits of `n`, padded with `0` to `width`.
pub fn push_padded(buf: &mut Vec<u8>, n: u64, width: usize)
    ensures
        final(buf)@ == old(buf)@ + zero_pad(decimal(n as nat), width as nat),
{
    let mut digits: Vec<u8> = Vec::new();
    push_decimal(&mut digits, n);
    assert(digits@ =~= decimal(n as nat));
    let ghost start = buf@;
    let mut k: usize = digits.len();
    while k < width
        invariant
            digits.len() <= k <= width || (k == digits.len() && digits.len() >= width),
            buf@ == start + Seq::new((k - digits@.len()) as nat, |i: int| 0x30u8),
        decreases width - k,
    {
        buf.push(0x30u8);
        k = k + 1;
        assert(buf@ =~= start + Seq::new((k - digits@.len()) as nat, |i: int| 0x30u8));
    }
    let ghost pad = buf@;
    let mut j: usize = 0;
    while j < digits.len()
        invariant
            j <= digits@.len(),
            buf@ == pad + digits@.subrange(0, j as int),
        decreases digits.len() - j,
    {
        buf.push(digits[j]);
        j = j + 1;
        assert(buf@ =~= pad + digits@.subrange(0, j as int));
    }
    assert(digits@.subrange(0, digits@.len() as int) =~= digits@);
    if digits.len() >= width {
        assert(Seq::new((k - digits@.len()) as nat, |i: int| 0x30u8) =~= Seq::<u8>::empty());
        assert(buf@ =~= start + digits@);
    } else {
        assert(buf@ =~= start + (Seq::new((width - digits@.len()) as nat, |i: int| 0x30u8) + digits@));
    }
}

pub proof fn lemma_ascii_concat(a: Seq<u8>, b: Seq<u8>)
    requires
        all_ascii(a),
        all_ascii(b),
    ensures
        all_ascii(a + b),
{
    assert forall|i: int| 0 <= i < (a + b).len() implies #[trigger] (a + b)[i] < 0x80u8 by {
        if i < a.len() {
            assert((a + b)[i] == a[i]);
        } else {
            assert((a + b)[i] == b[i - a.len()]);
        }
    }
}

pub proof fn lemma_zero_pad_ascii(s: Seq<u8>, width: nat)
    requires
        all_ascii(s),
    ensures
        all_ascii(zero_pad(s, width)),
{
    if s.len() < width {
        let z = Seq::new((width - s.len()) as nat, |i: int| 0x30u8);
        assert(all_ascii(z));
        lemma_ascii_concat(z, s);
    }
}


/// `s` without the white space at its start.
pub open spec fn trim_front(s: Seq<char>) -> Seq<char>
    decreases s.len(),
{
    if s.len() > 0 && is_white_space(s[0]) {
        trim_front(s.drop_first())
    } else {
        s
    }
}

/// `s` without the white space at its end.
pub open spec fn trim_back(s: Seq<char>) -> Seq<char>
    decreases s.len(),
{
    if s.len() > 0 && is_white_space(s.last()) {
        trim_back(s.drop_last())
    } else {
        s
    }
}

/// `s` without white space at either end.
pub open spec fn trimmed(s: Seq<char>) -> Seq<char> {
    trim_back(trim_front(s))
}

/// `str::trim`, which removes the leading and trailing characters that have
/// the Unicode `White_Space` property.
#[verifier::external_body]
pub fn trim_text(s: &str) -> (r: &str)
    ensures
        r@ == trimmed(s@),
{
    s.trim()
}


/// The encoding of a concatenation is the concatenation of the encodings.
pub proof fn lemma_encode_concat(a: Seq<char>, b: Seq<char>)
    ensures
        encode_utf8(a + b) == encode_utf8(a) + encode_utf8(b),
    decreases a.len(),
{
    if a.len() > 0 {
        assert((a + b).drop_first() =~= a.drop_first() + b);
        lemma_encode_concat(a.drop_first(), b);
        assert((a + b)[0] == a[0]);
        assert(encode_utf8(a + b) =~= encode_utf8(a) + encode_utf8(b));
    } else {
        assert(a + b =~= b);
        assert(encode_utf8(a) =~= Seq::<u8>::empty());
        assert(encode_utf8(a) + encode_utf8(b) =~= encode_utf8(b));
    }
}

/// A string made of the given characters.
pub fn string_of_chars(cs: &Vec<char>) -> (s: String)
    ensures
        s@ == cs@,
{
    let mut buf: Vec<u8> = Vec::new();
    let mut i: usize = 0;
    assert(encode_utf8(cs@.take(0)) =~= Seq::<u8>::empty());
    while i < cs.len()
        invariant
            i <= cs@.len(),
            buf@ == encode_utf8(cs@.take(i as int)),
        decreases cs.len() - i,
    {
        let c = cs[i];
        crate::sanitize::push_utf8(&mut buf, c);
        proof {
            lemma_encode_concat(cs@.take(i as int), seq![c]);
            assert(cs@.take(i + 1) =~= cs@.take(i as int) + seq![c]);
            assert(seq![c].drop_first() =~= Seq::<char>::empty());
            assert(encode_utf8(Seq::<char>::empty()) =~= Seq::<u8>::empty());
            assert(seq![c][0] == c);
            assert(encode_utf8(seq![c]) =~= encode_scalar(c as u32));
        }
        i = i + 1;
    }
    proof {
        assert(cs@.take(cs@.len() as int) =~= cs@);
        encode_utf8_valid_utf8(cs@);
        encode_utf8_decode_utf8(cs@);
    }
    string_from_utf8(buf)
}

/// The characters of a string.
pub fn chars_of(s: &str) -> (v: Vec<char>)
    ensures
        v@ == s@,
{
    let b = s.as_bytes();
    proof {
        encode_utf8_valid_utf8(s@);
        crate::sanitize::lemma_runes_valid(b@);
        encode_utf8_decode_utf8(s@);
    }
    let mut v: Vec<char> = Vec::new();
    let mut pos: usize = 0;
    assert(b@.subrange(0, b@.len() as int) =~= b@);
    while pos < b.len()
        invariant
            pos <= b@.len(),
            v@ + crate::sanitize::runes(b@.subrange(pos as int, b@.len() as int)) == s@,
        decreases b.len() - pos,
    {
        let rest = &b[pos..b.len()];
        let (c, n) = crate::sanitize::decode_rune(rest);
        let ghost rs = crate::sanitize::runes(rest@);
        let ghost tail = crate::sanitize::runes(rest@.subrange(n as int, rest@.len() as int));
        assert(rs == seq![c] + tail);
        assert(rest@.subrange(n as int, rest@.len() as int) =~= b@.subrange(pos + n, b@.len() as int));
        let ghost before = v@;
        v.push(c);
        assert(v@ + tail =~= before + rs);
        pos = pos + n;
    }
    assert(b@.subrange(pos as int, b@.len() as int) =~= Seq::<u8>::empty());
    assert(crate::sanitize::runes(Seq::<u8>::empty()) =~= Seq::<char>::empty());
    assert(v@ + Seq::<char>::empty() =~= v@);
    v
}


/// The decimal digits of a number as a string.
pub fn decimal_text(n: u64) -> (s: String)
    ensures
        s@ == ascii_chars(decimal(n as nat)),
{
    let mut digits: Vec<u8> = Vec::new();
    push_decimal(&mut digits, n);
    assert(digits@ =~= decimal(n as nat));
    proof {
        lemma_decimal_ascii(n as nat);
    }
    ascii_string(digits)
}

} // verus!

