//! Path resolver: percent-encodes an untrusted page identifier into a single
//! safe path segment, so that the resolved artifact path is always a direct
//! child of the storage root.

use vstd::prelude::*;

verus! {

/// Byte value of `/`, the path separator.
pub const SLASH: u8 = 47;

/// Byte value of `\`, the alternative separator on some platforms.
pub const BACKSLASH: u8 = 92;

/// Byte value of `.`; kept out of the safe set so that an encoded segment can
/// never be `.` or `..`.
pub const DOT: u8 = 46;

/// Byte value of `%`, the escape introducer.
pub const PERCENT: u8 = 37;

/// A byte that is emitted unchanged by the encoder: ASCII alphanumerics and
/// `-`, `_`, `~`. Everything else (separators, `.`, NUL, ...) is escaped.
pub open spec fn is_safe_byte(b: u8) -> bool {
    (48 <= b && b <= 57)  // '0'..='9'
    || (65 <= b && b <= 90)  // 'A'..='Z'
    || (97 <= b && b <= 122)  // 'a'..='z'
    || b == 45  // '-'
    || b == 95  // '_'
    || b == 126  // '~'
}

/// The uppercase hexadecimal digit for a value below 16.
pub open spec fn hex_digit(n: u8) -> u8 {
    if n < 10 {
        (48 + n) as u8
    } else {
        (55 + n) as u8
    }
}

/// How one byte of the identifier is encoded: safe bytes stand for
/// themselves, every other byte becomes `%` followed by two hex digits.
pub open spec fn encode_byte(b: u8) -> Seq<u8> {
    if is_safe_byte(b) {
        seq![b]
    } else {
        seq![PERCENT, hex_digit(b / 16), hex_digit(b % 16)]
    }
}

/// The encoding of a whole identifier: each byte encoded in order.
pub open spec fn encode_bytes(s: Seq<u8>) -> Seq<u8>
    decreases s.len(),
{
    if s.len() == 0 {
        Seq::empty()
    } else {
        encode_byte(s[0]) + encode_bytes(s.drop_first())
    }
}

/// Appending one byte to the identifier appends its encoding.
pub proof fn lemma_encode_bytes_push(s: Seq<u8>, b: u8)
    ensures
        encode_bytes(s.push(b)) == encode_bytes(s) + encode_byte(b),
    decreases s.len(),
{
    if s.len() == 0 {
        assert(s.push(b)[0] == b);
        assert(s.push(b).drop_first() =~= Seq::<u8>::empty());
        assert(encode_bytes(s.push(b)) == encode_byte(b) + encode_bytes(Seq::<u8>::empty()));
        assert(encode_byte(b) + Seq::<u8>::empty() =~= encode_byte(b));
        assert(encode_bytes(s) + encode_byte(b) =~= encode_byte(b));
    } else {
        assert(s.push(b)[0] == s[0]);
        assert(s.push(b).drop_first() =~= s.drop_first().push(b));
        lemma_encode_bytes_push(s.drop_first(), b);
        assert(encode_bytes(s.push(b)) == encode_byte(s[0]) + (encode_bytes(s.drop_first())
            + encode_byte(b)));
        assert(encode_byte(s[0]) + (encode_bytes(s.drop_first()) + encode_byte(b)) =~= (encode_byte(
            s[0],
        ) + encode_bytes(s.drop_first())) + encode_byte(b));
    }
}

/// The uppercase hexadecimal digit for a value below 16.
pub fn hex_digit_exec(n: u8) -> (r: u8)
    requires
        n < 16,
    ensures
        r == hex_digit(n),
{
    if n < 10 {
        48 + n
    } else {
        55 + n
    }
}

/// Every byte the encoder emits is either a safe byte or `%`; in particular
/// the encoded segment never contains a separator, a dot or a NUL byte, so it
/// can neither name a nested path nor be the `.` or `..` segment.
pub proof fn lemma_encode_no_traversal(id: Seq<u8>)
    ensures
        forall|i: int|
            0 <= i < encode_bytes(id).len() ==> (is_safe_byte(#[trigger] encode_bytes(id)[i])
                || encode_bytes(id)[i] == PERCENT),
        !encode_bytes(id).contains(SLASH),
        !encode_bytes(id).contains(BACKSLASH),
        !encode_bytes(id).contains(DOT),
        !encode_bytes(id).contains(0u8),
    decreases id.len(),
{
    if id.len() > 0 {
        lemma_encode_no_traversal(id.drop_first());
        let head = encode_byte(id[0]);
        let tail = encode_bytes(id.drop_first());
        assert(forall|i: int|
            0 <= i < head.len() ==> (is_safe_byte(#[trigger] head[i]) || head[i] == PERCENT));
        assert(forall|i: int|
            0 <= i < encode_bytes(id).len() ==> encode_bytes(id)[i] == (head + tail)[i]);
    }
}

/// Percent-encode an identifier into a single safe path segment.
pub fn encode_segment(id: &Vec<u8>) -> (r: Vec<u8>)
    ensures
        r@ == encode_bytes(id@),
{
    let mut r: Vec<u8> = Vec::new();
    let mut i: usize = 0;
    while i < id.len()
        invariant
            i <= id.len(),
            r@ == encode_bytes(id@.take(i as int)),
        decreases id.len() - i,
    {
        let b = id[i];
        proof {
            assert(id@.take(i + 1 as int) =~= id@.take(i as int).push(id@[i as int]));
            lemma_encode_bytes_push(id@.take(i as int), id@[i as int]);
        }
        if (48 <= b && b <= 57) || (65 <= b && b <= 90) || (97 <= b && b <= 122) || b == 45
            || b == 95 || b == 126 {
            r.push(b);
        } else {
            r.push(PERCENT);
            r.push(hex_digit_exec(b / 16));
            r.push(hex_digit_exec(b % 16));
        }
        i = i + 1;
    }
    proof {
        assert(id@.take(id@.len() as int) =~= id@);
    }
    r
}

/// A byte that can appear after `%` in an escape: an uppercase hex digit.
pub open spec fn is_hex_digit_byte(b: u8) -> bool {
    (48 <= b && b <= 57) || (65 <= b && b <= 70)
}

/// The value of an uppercase hex digit byte.
pub open spec fn hex_val(b: u8) -> u8 {
    if b < 65 {
        (b - 48) as u8
    } else {
        (b - 55) as u8
    }
}

/// The inverse of the encoding: peels safe bytes and `%XX` escapes off the
/// front; `None` on text that is not a well-formed encoded segment.
pub open spec fn decode_bytes(s: Seq<u8>) -> Option<Seq<u8>>
    decreases s.len(),
{
    if s.len() == 0 {
        Some(Seq::empty())
    } else if s[0] == PERCENT {
        if s.len() >= 3 && is_hex_digit_byte(s[1]) && is_hex_digit_byte(s[2]) {
            match decode_bytes(s.skip(3)) {
                Some(rest) => Some(seq![(hex_val(s[1]) * 16 + hex_val(s[2])) as u8] + rest),
                None => None,
            }
        } else {
            None
        }
    } else if is_safe_byte(s[0]) {
        match decode_bytes(s.drop_first()) {
            Some(rest) => Some(seq![s[0]] + rest),
            None => None,
        }
    } else {
        None
    }
}

/// The encoding is reversible: decoding the encoded segment gives back the
/// identifier, byte for byte.
pub proof fn lemma_decode_encode(id: Seq<u8>)
    ensures
        decode_bytes(encode_bytes(id)) == Some(id),
    decreases id.len(),
{
    if id.len() == 0 {
        assert(encode_bytes(id) =~= Seq::<u8>::empty());
    } else {
        let b = id[0];
        let head = encode_byte(b);
        let tail = encode_bytes(id.drop_first());
        let whole = head + tail;
        lemma_decode_encode(id.drop_first());
        assert(encode_bytes(id) == whole);
        if is_safe_byte(b) {
            assert(whole[0] == b);
            assert(whole[0] != PERCENT);
            assert(whole.drop_first() =~= tail);
            assert(seq![b] + id.drop_first() =~= id);
        } else {
            assert(whole[0] == PERCENT);
            assert(whole.len() >= 3);
            assert(whole[1] == hex_digit(b / 16));
            assert(whole[2] == hex_digit(b % 16));
            assert(is_hex_digit_byte(hex_digit(b / 16)));
            assert(is_hex_digit_byte(hex_digit(b % 16)));
            assert(hex_val(hex_digit(b / 16)) == b / 16);
            assert(hex_val(hex_digit(b % 16)) == b % 16);
            assert(whole.skip(3) =~= tail);
            assert(hex_val(whole[1]) * 16 + hex_val(whole[2]) == b) by {
                assert(b / 16 * 16 + b % 16 == b) by (nonlinear_arith);
            }
            assert(seq![b] + id.drop_first() =~= id);
        }
    }
}

/// The encoding is collision-free: two identifiers with the same encoded
/// segment are the same identifier.
pub proof fn lemma_encode_injective(a: Seq<u8>, b: Seq<u8>)
    requires
        encode_bytes(a) == encode_bytes(b),
    ensures
        a == b,
{
    lemma_decode_encode(a);
    lemma_decode_encode(b);
}

/// The path of the artifact for an identifier: the root, a separator, and
/// the encoded segment.
pub open spec fn resolved_path(root: Seq<u8>, id: Seq<u8>) -> Seq<u8> {
    root + seq![SLASH] + encode_bytes(id)
}

/// Resolve an untrusted identifier to the artifact path under `root`.
pub fn resolve(root: &Vec<u8>, id: &Vec<u8>) -> (p: Vec<u8>)
    ensures
        p@ == resolved_path(root@, id@),
{
    let mut p: Vec<u8> = Vec::new();
    let mut i: usize = 0;
    while i < root.len()
        invariant
            i <= root.len(),
            p@ == root@.take(i as int),
        decreases root.len() - i,
    {
        p.push(root[i]);
        i = i + 1;
    }
    proof {
        assert(root@.take(root@.len() as int) =~= root@);
    }
    p.push(SLASH);
    let mut seg = encode_segment(id);
    p.append(&mut seg);
    proof {
        assert(p@ =~= resolved_path(root@, id@));
    }
    p
}

/// The directory part of a path: everything before the last separator.
pub open spec fn parent_of(p: Seq<u8>) -> Seq<u8>
    decreases p.len(),
{
    if p.len() == 0 {
        p
    } else if p.last() == SLASH {
        p.drop_last()
    } else {
        parent_of(p.drop_last())
    }
}

/// Stripping components never looks past the last separator: appending a
/// separator-free suffix leaves the parent unchanged.
proof fn lemma_parent_of_extend(p: Seq<u8>, s: Seq<u8>)
    requires
        !s.contains(SLASH),
    ensures
        parent_of(p + seq![SLASH] + s) == p,
    decreases s.len(),
{
    if s.len() == 0 {
        assert(p + seq![SLASH] + s =~= p.push(SLASH));
        assert(p.push(SLASH).drop_last() =~= p);
    } else {
        let whole = p + seq![SLASH] + s;
        assert(whole.last() == s.last());
        assert(s.contains(s.last()));
        assert(whole.last() != SLASH);
        assert(whole.drop_last() =~= p + seq![SLASH] + s.drop_last());
        assert(forall|i: int| 0 <= i < s.len() - 1 ==> s.drop_last()[i] == s[i]);
        assert(!s.drop_last().contains(SLASH)) by {
            if s.drop_last().contains(SLASH) {
                let j = choose|j: int| 0 <= j < s.drop_last().len() && s.drop_last()[j] == SLASH;
                assert(s[j] == SLASH);
            }
        }
        lemma_parent_of_extend(p, s.drop_last());
    }
}

/// Traversal safety: whatever the identifier holds (`..` runs, separators,
/// NUL bytes), the resolved path lies directly under `root` — its parent is
/// exactly `root`, and its final segment is never `.`, `..` or empty-with-
/// meaning, since the segment contains no dot and no separator at all.
pub proof fn lemma_resolve_stays_in_root(root: Seq<u8>, id: Seq<u8>)
    ensures
        parent_of(resolved_path(root, id)) == root,
        !encode_bytes(id).contains(SLASH),
        !encode_bytes(id).contains(BACKSLASH),
        !encode_bytes(id).contains(DOT),
        !encode_bytes(id).contains(0u8),
{
    lemma_encode_no_traversal(id);
    lemma_parent_of_extend(root, encode_bytes(id));
}

} // verus!
