//! The profile-transport codec: a profile is conveyed from the parent to
//! the child out of band (for instance through an environment variable the
//! command configures), so its operations are encoded as a plain ASCII
//! string and reconstructed inside the child.
//!
//! Every embedded path is hex-escaped, so arbitrary bytes — separators and
//! NUL included — survive the channel byte-for-byte; nothing is truncated
//! or corrupted in transit. Each operation's record ends in `;`, and `;`
//! never occurs inside a record.

use vstd::prelude::*;

use crate::profile::{
    all_supported, op_views, AddressPattern, AddressPatternView, Operation, OperationView,
    PathPattern, PathPatternView, Profile,
};
use vstd::string::StrSliceExecFns;
use vstd::string::StringExecFns;

verus! {

/// The lowercase hex digit of a value below sixteen.
pub open spec fn hex_char(n: u8) -> char {
    if n == 0 {
        '0'
    } else if n == 1 {
        '1'
    } else if n == 2 {
        '2'
    } else if n == 3 {
        '3'
    } else if n == 4 {
        '4'
    } else if n == 5 {
        '5'
    } else if n == 6 {
        '6'
    } else if n == 7 {
        '7'
    } else if n == 8 {
        '8'
    } else if n == 9 {
        '9'
    } else if n == 10 {
        'a'
    } else if n == 11 {
        'b'
    } else if n == 12 {
        'c'
    } else if n == 13 {
        'd'
    } else if n == 14 {
        'e'
    } else {
        'f'
    }
}

/// The value of a hex digit, or nothing for any other character.
pub open spec fn hex_val(c: char) -> Option<u8> {
    match c {
        '0' => Some(0u8),
        '1' => Some(1u8),
        '2' => Some(2u8),
        '3' => Some(3u8),
        '4' => Some(4u8),
        '5' => Some(5u8),
        '6' => Some(6u8),
        '7' => Some(7u8),
        '8' => Some(8u8),
        '9' => Some(9u8),
        'a' => Some(10u8),
        'b' => Some(11u8),
        'c' => Some(12u8),
        'd' => Some(13u8),
        'e' => Some(14u8),
        'f' => Some(15u8),
        _ => None,
    }
}

/// The two hex digits of one byte, high nibble first.
pub open spec fn byte_hex_chars(b: u8) -> Seq<char> {
    seq![hex_char(b / 16), hex_char(b % 16)]
}

/// The hex spelling of a byte string.
pub open spec fn hex_chars_of(bytes: Seq<u8>) -> Seq<char>
    decreases bytes.len(),
{
    if bytes.len() == 0 {
        Seq::empty()
    } else {
        byte_hex_chars(bytes[0]) + hex_chars_of(bytes.drop_first())
    }
}

/// Reads a hex spelling back: two digits per byte; an odd number of digits
/// or any non-digit character is a malformed spelling.
pub open spec fn dec_hex(cs: Seq<char>) -> Option<Seq<u8>>
    decreases cs.len(),
{
    if cs.len() == 0 {
        Some(Seq::empty())
    } else if cs.len() == 1 {
        None
    } else {
        match (hex_val(cs[0]), hex_val(cs[1])) {
            (Some(h), Some(l)) => match dec_hex(cs.skip(2)) {
                Some(rest) => Some(seq![(16 * h + l) as u8] + rest),
                None => None,
            },
            _ => None,
        }
    }
}

proof fn lemma_hex_char_val(n: u8)
    requires
        n < 16,
    ensures
        hex_val(hex_char(n)) == Some(n),
{
}

/// Every character of a hex spelling is a hex digit.
proof fn lemma_hex_chars_hexonly(bytes: Seq<u8>)
    ensures
        forall|i: int|
            0 <= i < hex_chars_of(bytes).len() ==> #[trigger] hex_val(hex_chars_of(bytes)[i])
                is Some,
    decreases bytes.len(),
{
    if bytes.len() > 0 {
        lemma_hex_chars_hexonly(bytes.drop_first());
        lemma_hex_char_val(bytes[0] / 16);
        lemma_hex_char_val(bytes[0] % 16);
        assert forall|i: int| 0 <= i < hex_chars_of(bytes).len() implies #[trigger] hex_val(
            hex_chars_of(bytes)[i],
        ) is Some by {
            if i >= 2 {
                assert(hex_chars_of(bytes)[i] == hex_chars_of(bytes.drop_first())[i - 2]);
            }
        }
    }
}

/// Hex-spelling one more byte appends its two digits.
proof fn lemma_hex_snoc(bytes: Seq<u8>, b: u8)
    ensures
        hex_chars_of(bytes.push(b)) == hex_chars_of(bytes) + byte_hex_chars(b),
    decreases bytes.len(),
{
    if bytes.len() == 0 {
        assert(bytes.push(b)[0] == b);
        assert(bytes.push(b).drop_first() =~= Seq::<u8>::empty());
        assert(hex_chars_of(Seq::<u8>::empty()) == Seq::<char>::empty());
        assert(hex_chars_of(bytes) == Seq::<char>::empty());
        assert(hex_chars_of(bytes.push(b)) =~= hex_chars_of(bytes) + byte_hex_chars(b));
    } else {
        lemma_hex_snoc(bytes.drop_first(), b);
        assert(bytes.push(b)[0] == bytes[0]);
        assert(bytes.push(b).drop_first() =~= bytes.drop_first().push(b));
        assert(hex_chars_of(bytes.push(b)) =~= hex_chars_of(bytes) + byte_hex_chars(b));
    }
}

/// Reading a hex spelling yields the bytes it spelled.
proof fn lemma_dec_hex_of(bytes: Seq<u8>)
    ensures
        dec_hex(hex_chars_of(bytes)) == Some(bytes),
    decreases bytes.len(),
{
    if bytes.len() == 0 {
        assert(hex_chars_of(bytes).len() == 0);
    } else {
        let cs = hex_chars_of(bytes);
        lemma_dec_hex_of(bytes.drop_first());
        lemma_hex_char_val(bytes[0] / 16);
        lemma_hex_char_val(bytes[0] % 16);
        assert(cs[0] == hex_char(bytes[0] / 16));
        assert(cs[1] == hex_char(bytes[0] % 16));
        assert(cs.skip(2) =~= hex_chars_of(bytes.drop_first()));
        assert(16 * (bytes[0] / 16) + bytes[0] % 16 == bytes[0]);
        assert(dec_hex(cs) == Some(seq![bytes[0]] + bytes.drop_first()));
        assert(seq![bytes[0]] + bytes.drop_first() =~= bytes);
    }
}

/// A hex spelling with an odd number of digits is malformed.
proof fn lemma_dec_hex_odd(cs: Seq<char>)
    requires
        cs.len() % 2 == 1,
    ensures
        dec_hex(cs) is None,
    decreases cs.len(),
{
    if cs.len() > 1 {
        lemma_dec_hex_odd(cs.skip(2));
    }
}

/// Two hundred fifty-six to the power `n`: the number of byte strings of
/// length `n`, hence the bound of their little-endian value.
pub open spec fn pow256(n: nat) -> nat
    decreases n,
{
    if n == 0 {
        1
    } else {
        256 * pow256((n - 1) as nat)
    }
}

/// The `n` little-endian bytes of a value.
pub open spec fn le_bytes(v: nat, n: nat) -> Seq<u8>
    decreases n,
{
    if n == 0 {
        Seq::empty()
    } else {
        seq![(v % 256) as u8] + le_bytes(v / 256, (n - 1) as nat)
    }
}

/// The value a little-endian byte string stands for.
pub open spec fn le_val(bytes: Seq<u8>) -> nat
    decreases bytes.len(),
{
    if bytes.len() == 0 {
        0
    } else {
        bytes[0] as nat + 256 * le_val(bytes.drop_first())
    }
}

proof fn lemma_le_bytes_len(v: nat, n: nat)
    ensures
        le_bytes(v, n).len() == n,
    decreases n,
{
    if n > 0 {
        lemma_le_bytes_len(v / 256, (n - 1) as nat);
    }
}

/// A value below the bound round-trips through its little-endian bytes.
proof fn lemma_le_val_of(v: nat, n: nat)
    requires
        v < pow256(n),
    ensures
        le_val(le_bytes(v, n)) == v,
    decreases n,
{
    if n == 0 {
    } else {
        lemma_le_val_of(v / 256, (n - 1) as nat);
        let bs = le_bytes(v, n);
        assert(bs.drop_first() =~= le_bytes(v / 256, (n - 1) as nat));
        assert(v % 256 + 256 * (v / 256) == v);
    }
}

/// The value of a little-endian byte string is below the bound of its length.
proof fn lemma_le_val_bound(bytes: Seq<u8>)
    ensures
        le_val(bytes) < pow256(bytes.len()),
    decreases bytes.len(),
{
    if bytes.len() > 0 {
        lemma_le_val_bound(bytes.drop_first());
    }
}

proof fn lemma_pow256_mono(a: nat, b: nat)
    requires
        a <= b,
    ensures
        pow256(a) <= pow256(b),
    decreases b,
{
    if a < b && b > 0 {
        lemma_pow256_mono(a, (b - 1) as nat);
    }
}

/// The record body of a path pattern: a scope tag and the hex-escaped path.
pub open spec fn enc_pat(pat: PathPatternView) -> Seq<char> {
    match pat {
        PathPatternView::Literal(p) => seq!['l'] + hex_chars_of(p),
        PathPatternView::Subpath(p) => seq!['s'] + hex_chars_of(p),
    }
}

/// The record body of an address pattern.
pub open spec fn enc_addr(pat: AddressPatternView) -> Seq<char> {
    match pat {
        AddressPatternView::All => seq!['a'],
        AddressPatternView::Tcp(port) => seq!['t'] + hex_chars_of(le_bytes(port as nat, 2)),
        AddressPatternView::LocalSocket(p) => seq!['l'] + hex_chars_of(p),
    }
}

/// The record body of one operation: a two-character kind tag and the
/// operation's scope.
pub open spec fn enc_op_body(op: OperationView) -> Seq<char> {
    match op {
        OperationView::FileReadAll(p) => seq!['f', 'r'] + enc_pat(p),
        OperationView::FileReadMetadata(p) => seq!['f', 'm'] + enc_pat(p),
        OperationView::NetworkOutbound(a) => seq!['n', 'o'] + enc_addr(a),
        OperationView::SystemInfoRead => seq!['s', 'i'],
        OperationView::PlatformSpecific(v) => seq!['p', 's'] + hex_chars_of(le_bytes(v as nat, 8)),
    }
}

/// One operation's record: its body and the terminator.
pub open spec fn enc_op(op: OperationView) -> Seq<char> {
    enc_op_body(op) + seq![';']
}

/// The whole transported profile: the operations' records in order.
pub open spec fn enc_ops(ops: Seq<OperationView>) -> Seq<char>
    decreases ops.len(),
{
    if ops.len() == 0 {
        Seq::empty()
    } else {
        enc_op(ops[0]) + enc_ops(ops.drop_first())
    }
}

/// Reads a path-pattern record body back.
pub open spec fn dec_pat(cs: Seq<char>) -> Option<PathPatternView> {
    if cs.len() < 1 {
        None
    } else if cs[0] == 'l' {
        match dec_hex(cs.skip(1)) {
            Some(p) => Some(PathPatternView::Literal(p)),
            None => None,
        }
    } else if cs[0] == 's' {
        match dec_hex(cs.skip(1)) {
            Some(p) => Some(PathPatternView::Subpath(p)),
            None => None,
        }
    } else {
        None
    }
}

/// Reads an address-pattern record body back.
pub open spec fn dec_addr(cs: Seq<char>) -> Option<AddressPatternView> {
    if cs.len() < 1 {
        None
    } else if cs[0] == 'a' {
        if cs.len() == 1 {
            Some(AddressPatternView::All)
        } else {
            None
        }
    } else if cs[0] == 't' {
        match dec_hex(cs.skip(1)) {
            Some(bs) => if bs.len() == 2 {
                Some(AddressPatternView::Tcp(le_val(bs) as u16))
            } else {
                None
            },
            None => None,
        }
    } else if cs[0] == 'l' {
        match dec_hex(cs.skip(1)) {
            Some(p) => Some(AddressPatternView::LocalSocket(p)),
            None => None,
        }
    } else {
        None
    }
}

/// Reads one operation's record body back.
pub open spec fn dec_op_body(cs: Seq<char>) -> Option<OperationView> {
    if cs.len() < 2 {
        None
    } else if cs[0] == 'f' && cs[1] == 'r' {
        match dec_pat(cs.skip(2)) {
            Some(p) => Some(OperationView::FileReadAll(p)),
            None => None,
        }
    } else if cs[0] == 'f' && cs[1] == 'm' {
        match dec_pat(cs.skip(2)) {
            Some(p) => Some(OperationView::FileReadMetadata(p)),
            None => None,
        }
    } else if cs[0] == 'n' && cs[1] == 'o' {
        match dec_addr(cs.skip(2)) {
            Some(a) => Some(OperationView::NetworkOutbound(a)),
            None => None,
        }
    } else if cs[0] == 's' && cs[1] == 'i' {
        if cs.len() == 2 {
            Some(OperationView::SystemInfoRead)
        } else {
            None
        }
    } else if cs[0] == 'p' && cs[1] == 's' {
        match dec_hex(cs.skip(2)) {
            Some(bs) => if bs.len() == 8 {
                Some(OperationView::PlatformSpecific(le_val(bs) as u64))
            } else {
                None
            },
            None => None,
        }
    } else {
        None
    }
}

/// The position of the first record terminator, or the length if none.
pub open spec fn find_semi(cs: Seq<char>) -> int
    decreases cs.len(),
{
    if cs.len() == 0 {
        0
    } else if cs[0] == ';' {
        0
    } else {
        1 + find_semi(cs.drop_first())
    }
}

proof fn lemma_find_semi_bounds(cs: Seq<char>)
    ensures
        0 <= find_semi(cs) <= cs.len(),
    decreases cs.len(),
{
    if cs.len() > 0 && cs[0] != ';' {
        lemma_find_semi_bounds(cs.drop_first());
    }
}

proof fn lemma_find_semi_at(cs: Seq<char>, k: int)
    requires
        0 <= k <= cs.len(),
        forall|i: int| 0 <= i < k ==> cs[i] != ';',
        k < cs.len() ==> cs[k] == ';',
    ensures
        find_semi(cs) == k,
    decreases cs.len(),
{
    if cs.len() == 0 {
    } else if cs[0] == ';' {
        assert(k == 0);
    } else {
        assert(forall|i: int| 0 <= i < k - 1 ==> cs.drop_first()[i] == cs[i + 1]);
        lemma_find_semi_at(cs.drop_first(), k - 1);
    }
}

/// Reads a whole transported profile back: record by record, each ending
/// at the next terminator; a malformed record or a missing terminator is a
/// malformed transport value.
pub open spec fn dec_ops(cs: Seq<char>) -> Option<Seq<OperationView>>
    decreases cs.len(),
    via dec_ops_termination
{
    if cs.len() == 0 {
        Some(Seq::empty())
    } else {
        let k = find_semi(cs);
        if k == cs.len() {
            None
        } else {
            match dec_op_body(cs.take(k)) {
                Some(op) => match dec_ops(cs.skip(k + 1)) {
                    Some(rest) => Some(seq![op] + rest),
                    None => None,
                },
                None => None,
            }
        }
    }
}

#[via_fn]
proof fn dec_ops_termination(cs: Seq<char>) {
    if cs.len() != 0 {
        lemma_find_semi_bounds(cs);
    }
}

/// No character of a record body is the terminator.
proof fn lemma_enc_op_body_semifree(op: OperationView)
    ensures
        forall|i: int| 0 <= i < enc_op_body(op).len() ==> #[trigger] enc_op_body(op)[i] != ';',
{
    let body = enc_op_body(op);
    match op {
        OperationView::FileReadAll(p) | OperationView::FileReadMetadata(p) => {
            let hexpart = match p {
                PathPatternView::Literal(b) => hex_chars_of(b),
                PathPatternView::Subpath(b) => hex_chars_of(b),
            };
            match p {
                PathPatternView::Literal(b) => lemma_hex_chars_hexonly(b),
                PathPatternView::Subpath(b) => lemma_hex_chars_hexonly(b),
            }
            assert forall|i: int| 0 <= i < body.len() implies #[trigger] body[i] != ';' by {
                if i >= 3 {
                    assert(body[i] == hexpart[i - 3]);
                    assert(hex_val(hexpart[i - 3]) is Some);
                }
            }
        },
        OperationView::NetworkOutbound(a) => {
            let hexpart = match a {
                AddressPatternView::All => Seq::<char>::empty(),
                AddressPatternView::Tcp(port) => hex_chars_of(le_bytes(port as nat, 2)),
                AddressPatternView::LocalSocket(b) => hex_chars_of(b),
            };
            match a {
                AddressPatternView::All => {},
                AddressPatternView::Tcp(port) => lemma_hex_chars_hexonly(le_bytes(port as nat, 2)),
                AddressPatternView::LocalSocket(b) => lemma_hex_chars_hexonly(b),
            }
            assert forall|i: int| 0 <= i < body.len() implies #[trigger] body[i] != ';' by {
                if i >= 3 {
                    assert(body[i] == hexpart[i - 3]);
                    assert(hex_val(hexpart[i - 3]) is Some);
                }
            }
        },
        OperationView::SystemInfoRead => {},
        OperationView::PlatformSpecific(v) => {
            lemma_hex_chars_hexonly(le_bytes(v as nat, 8));
            let hexpart = hex_chars_of(le_bytes(v as nat, 8));
            assert forall|i: int| 0 <= i < body.len() implies #[trigger] body[i] != ';' by {
                if i >= 2 {
                    assert(body[i] == hexpart[i - 2]);
                    assert(hex_val(hexpart[i - 2]) is Some);
                }
            }
        },
    }
}

/// Reading one record body yields the operation it encoded.
proof fn lemma_dec_op_body_of(op: OperationView)
    ensures
        dec_op_body(enc_op_body(op)) == Some(op),
{
    let body = enc_op_body(op);
    match op {
        OperationView::FileReadAll(p) | OperationView::FileReadMetadata(p) => {
            let tail = body.skip(2);
            assert(tail =~= enc_pat(p));
            match p {
                PathPatternView::Literal(b) => {
                    lemma_dec_hex_of(b);
                    assert(tail.skip(1) =~= hex_chars_of(b));
                },
                PathPatternView::Subpath(b) => {
                    lemma_dec_hex_of(b);
                    assert(tail.skip(1) =~= hex_chars_of(b));
                },
            }
        },
        OperationView::NetworkOutbound(a) => {
            let tail = body.skip(2);
            assert(tail =~= enc_addr(a));
            match a {
                AddressPatternView::All => {},
                AddressPatternView::Tcp(port) => {
                    lemma_dec_hex_of(le_bytes(port as nat, 2));
                    lemma_le_bytes_len(port as nat, 2);
                    assert(pow256(2) == 65536) by {
                        assert(pow256(0) == 1);
                        assert(pow256(1) == 256);
                    }
                    lemma_le_val_of(port as nat, 2);
                    assert(tail.skip(1) =~= hex_chars_of(le_bytes(port as nat, 2)));
                },
                AddressPatternView::LocalSocket(b) => {
                    lemma_dec_hex_of(b);
                    assert(tail.skip(1) =~= hex_chars_of(b));
                },
            }
        },
        OperationView::SystemInfoRead => {},
        OperationView::PlatformSpecific(v) => {
            lemma_dec_hex_of(le_bytes(v as nat, 8));
            lemma_le_bytes_len(v as nat, 8);
            assert(pow256(8) == 0x10000000000000000) by {
                assert(pow256(0) == 1);
                assert(pow256(1) == 0x100);
                assert(pow256(2) == 0x10000);
                assert(pow256(3) == 0x1000000);
                assert(pow256(4) == 0x100000000);
                assert(pow256(5) == 0x10000000000);
                assert(pow256(6) == 0x1000000000000);
                assert(pow256(7) == 0x100000000000000);
            }
            lemma_le_val_of(v as nat, 8);
            assert(body.skip(2) =~= hex_chars_of(le_bytes(v as nat, 8)));
        },
    }
}

/// Appending one more operation appends its record.
proof fn lemma_enc_ops_snoc(ops: Seq<OperationView>, op: OperationView)
    ensures
        enc_ops(ops.push(op)) == enc_ops(ops) + enc_op(op),
    decreases ops.len(),
{
    if ops.len() == 0 {
        assert(ops.push(op)[0] == op);
        assert(ops.push(op).drop_first() =~= Seq::<OperationView>::empty());
        assert(enc_ops(Seq::<OperationView>::empty()) == Seq::<char>::empty());
        assert(enc_ops(ops) == Seq::<char>::empty());
        assert(enc_ops(ops.push(op)) =~= enc_ops(ops) + enc_op(op));
    } else {
        lemma_enc_ops_snoc(ops.drop_first(), op);
        assert(ops.push(op)[0] == ops[0]);
        assert(ops.push(op).drop_first() =~= ops.drop_first().push(op));
        assert(enc_ops(ops.push(op)) =~= enc_ops(ops) + enc_op(op));
    }
}

proof fn lemma_hex_val_inv(c: char)
    requires
        hex_val(c) is Some,
    ensures
        hex_val(c)->0 < 16,
        hex_char(hex_val(c)->0) == c,
{
}

/// A hex spelling that reads back is the spelling of what it read.
proof fn lemma_dec_hex_sound(cs: Seq<char>)
    requires
        dec_hex(cs) is Some,
    ensures
        hex_chars_of(dec_hex(cs)->0) == cs,
    decreases cs.len(),
{
    if cs.len() == 0 {
        assert(hex_chars_of(dec_hex(cs)->0) =~= cs);
    } else {
        let h = hex_val(cs[0])->0;
        let l = hex_val(cs[1])->0;
        lemma_hex_val_inv(cs[0]);
        lemma_hex_val_inv(cs[1]);
        lemma_dec_hex_sound(cs.skip(2));
        let bs = dec_hex(cs)->0;
        let b: u8 = (16 * h + l) as u8;
        assert(bs == seq![b] + dec_hex(cs.skip(2))->0);
        assert(bs[0] == b);
        assert(bs.drop_first() =~= dec_hex(cs.skip(2))->0);
        assert(b / 16 == h && b % 16 == l);
        assert(hex_chars_of(bs) =~= cs);
    }
}

/// A little-endian byte string is the spelling of its own value.
proof fn lemma_le_bytes_of(bytes: Seq<u8>)
    ensures
        le_bytes(le_val(bytes), bytes.len()) == bytes,
    decreases bytes.len(),
{
    if bytes.len() > 0 {
        lemma_le_bytes_of(bytes.drop_first());
        let v = le_val(bytes);
        assert(v % 256 == bytes[0] as nat);
        assert(v / 256 == le_val(bytes.drop_first()));
        assert(le_bytes(v, bytes.len()) =~= bytes);
    } else {
        assert(le_bytes(le_val(bytes), bytes.len()) =~= bytes);
    }
}

/// The string slice holding one lowercase hex digit.
fn hex_digit_str(n: u8) -> (r: &'static str)
    requires
        n < 16,
    ensures
        r@ == seq![hex_char(n)],
{
    let digits = "0123456789abcdef";
    proof {
        reveal_strlit("0123456789abcdef");
    }
    let r = digits.substring_char(n as usize, n as usize + 1);
    proof {
        assert(digits@[n as int] == hex_char(n));
        assert(r@ =~= seq![hex_char(n)]);
    }
    r
}

/// Appends the hex spelling of a byte string.
fn append_hex_bytes(out: &mut String, data: &[u8])
    ensures
        final(out)@ == old(out)@ + hex_chars_of(data@),
{
    let ghost base = out@;
    let mut i: usize = 0;
    while i < data.len()
        invariant
            i <= data@.len(),
            out@ == base + hex_chars_of(data@.take(i as int)),
        decreases data@.len() - i,
    {
        let b = data[i];
        out.append(hex_digit_str(b / 16));
        out.append(hex_digit_str(b % 16));
        proof {
            lemma_hex_snoc(data@.take(i as int), b);
            assert(data@.take(i as int + 1) =~= data@.take(i as int).push(b));
            assert(base + hex_chars_of(data@.take(i as int)) + seq![hex_char(b / 16)] + seq![
                hex_char(b % 16),
            ] =~= base + hex_chars_of(data@.take(i as int + 1)));
        }
        i = i + 1;
    }
    proof {
        assert(data@.take(data@.len() as int) =~= data@);
    }
}

/// The `n` little-endian bytes of a value.
fn le_bytes_vec(v: u64, n: usize) -> (r: Vec<u8>)
    ensures
        r@ == le_bytes(v as nat, n as nat),
{
    let mut out: Vec<u8> = Vec::new();
    let mut cur: u64 = v;
    let mut k: usize = 0;
    while k < n
        invariant
            k <= n,
            out@ + le_bytes(cur as nat, (n - k) as nat) == le_bytes(v as nat, n as nat),
        decreases n - k,
    {
        let b: u8 = (cur % 256) as u8;
        proof {
            assert(b as nat == (cur as nat) % 256);
            assert(le_bytes(cur as nat, (n - k) as nat) == seq![b] + le_bytes(
                (cur as nat) / 256,
                (n - k - 1) as nat,
            ));
            assert(out@.push(b) + le_bytes((cur as nat) / 256, (n - k - 1) as nat) =~= out@
                + le_bytes(cur as nat, (n - k) as nat));
            assert((cur / 256) as nat == (cur as nat) / 256);
        }
        out.push(b);
        cur = cur / 256;
        k = k + 1;
    }
    out
}

/// Appends a path pattern's record body.
fn append_path_pattern(out: &mut String, pat: &PathPattern)
    ensures
        final(out)@ == old(out)@ + enc_pat(pat@),
{
    match pat {
        PathPattern::Literal(p) => {
            out.append("l");
            append_hex_bytes(out, p.as_slice());
            proof {
                reveal_strlit("l");
                assert(old(out)@ + "l"@ + hex_chars_of(p@) =~= old(out)@ + enc_pat(pat@));
            }
        },
        PathPattern::Subpath(p) => {
            out.append("s");
            append_hex_bytes(out, p.as_slice());
            proof {
                reveal_strlit("s");
                assert(old(out)@ + "s"@ + hex_chars_of(p@) =~= old(out)@ + enc_pat(pat@));
            }
        },
    }
}

/// Appends an address pattern's record body.
fn append_address_pattern(out: &mut String, pat: &AddressPattern)
    ensures
        final(out)@ == old(out)@ + enc_addr(pat@),
{
    match pat {
        AddressPattern::All => {
            out.append("a");
            proof {
                reveal_strlit("a");
                assert(old(out)@ + "a"@ =~= old(out)@ + enc_addr(pat@));
            }
        },
        AddressPattern::Tcp(port) => {
            out.append("t");
            let bytes = le_bytes_vec(*port as u64, 2);
            append_hex_bytes(out, bytes.as_slice());
            proof {
                reveal_strlit("t");
                assert(old(out)@ + "t"@ + hex_chars_of(le_bytes(*port as nat, 2)) =~= old(out)@
                    + enc_addr(pat@));
            }
        },
        AddressPattern::LocalSocket(p) => {
            out.append("l");
            append_hex_bytes(out, p.as_slice());
            proof {
                reveal_strlit("l");
                assert(old(out)@ + "l"@ + hex_chars_of(p@) =~= old(out)@ + enc_addr(pat@));
            }
        },
    }
}

/// Appends one operation's record, terminator included.
fn append_operation(out: &mut String, op: &Operation)
    ensures
        final(out)@ == old(out)@ + enc_op(op@),
{
    match op {
        Operation::FileReadAll(p) => {
            out.append("fr");
            proof {
                reveal_strlit("fr");
                assert("fr"@ =~= seq!['f', 'r']);
            }
            append_path_pattern(out, p);
        },
        Operation::FileReadMetadata(p) => {
            out.append("fm");
            proof {
                reveal_strlit("fm");
                assert("fm"@ =~= seq!['f', 'm']);
            }
            append_path_pattern(out, p);
        },
        Operation::NetworkOutbound(a) => {
            out.append("no");
            proof {
                reveal_strlit("no");
                assert("no"@ =~= seq!['n', 'o']);
            }
            append_address_pattern(out, a);
        },
        Operation::SystemInfoRead => {
            out.append("si");
            proof {
                reveal_strlit("si");
                assert("si"@ =~= seq!['s', 'i']);
            }
        },
        Operation::PlatformSpecific(v) => {
            out.append("ps");
            proof {
                reveal_strlit("ps");
                assert("ps"@ =~= seq!['p', 's']);
            }
            let bytes = le_bytes_vec(*v, 8);
            append_hex_bytes(out, bytes.as_slice());
        },
    }
    out.append(";");
    proof {
        reveal_strlit(";");
        assert(";"@ =~= seq![';']);
        assert(out@ =~= old(out)@ + enc_op(op@));
    }
}

/// Encodes a profile for the transport channel: each granted operation's
/// record in order, embedded paths hex-escaped.
pub fn encode_profile(p: &Profile) -> (r: String)
    ensures
        r@ == enc_ops(p@),
{
    let ops = p.operations();
    let mut out = String::new();
    let mut i: usize = 0;
    while i < ops.len()
        invariant
            i <= ops@.len(),
            op_views(ops@) == p@,
            out@ == enc_ops(p@.take(i as int)),
        decreases ops@.len() - i,
    {
        proof {
            assert(p@[i as int] == ops@[i as int]@);
        }
        append_operation(&mut out, &ops[i]);
        proof {
            lemma_enc_ops_snoc(p@.take(i as int), p@[i as int]);
            assert(p@.take(i as int + 1) =~= p@.take(i as int).push(p@[i as int]));
        }
        i = i + 1;
    }
    proof {
        assert(p@.take(p@.len() as int) =~= p@);
    }
    out
}

/// The value of a hex digit character, or nothing for any other character.
fn hex_val_of(c: char) -> (r: Option<u8>)
    ensures
        r == hex_val(c),
{
    match c {
        '0' => Some(0),
        '1' => Some(1),
        '2' => Some(2),
        '3' => Some(3),
        '4' => Some(4),
        '5' => Some(5),
        '6' => Some(6),
        '7' => Some(7),
        '8' => Some(8),
        '9' => Some(9),
        'a' => Some(10),
        'b' => Some(11),
        'c' => Some(12),
        'd' => Some(13),
        'e' => Some(14),
        'f' => Some(15),
        _ => None,
    }
}

/// Transport preserves the profile: reading back the records of any
/// operation sequence yields exactly that sequence — order, scopes and
/// embedded path bytes included. This is the round-trip guarantee of the
/// parent-to-child profile channel.
pub proof fn lemma_transport_round_trip(ops: Seq<OperationView>)
    ensures
        dec_ops(enc_ops(ops)) == Some(ops),
    decreases ops.len(),
{
    if ops.len() == 0 {
    } else {
        let op = ops[0];
        let body = enc_op_body(op);
        let cs = enc_ops(ops);
        lemma_transport_round_trip(ops.drop_first());
        lemma_enc_op_body_semifree(op);
        assert(cs =~= body + seq![';'] + enc_ops(ops.drop_first()));
        assert(forall|i: int| 0 <= i < body.len() ==> cs[i] == body[i]);
        assert(cs[body.len() as int] == ';');
        lemma_find_semi_at(cs, body.len() as int);
        assert(cs.take(body.len() as int) =~= body);
        lemma_dec_op_body_of(op);
        assert(cs.skip(body.len() as int + 1) =~= enc_ops(ops.drop_first()));
        assert(seq![op] + ops.drop_first() =~= ops);
    }
}

proof fn lemma_find_semi_props(cs: Seq<char>)
    ensures
        0 <= find_semi(cs) <= cs.len(),
        find_semi(cs) < cs.len() ==> cs[find_semi(cs)] == ';',
        forall|i: int| 0 <= i < find_semi(cs) ==> cs[i] != ';',
    decreases cs.len(),
{
    if cs.len() > 0 && cs[0] != ';' {
        lemma_find_semi_props(cs.drop_first());
        assert(forall|i: int| 1 <= i < find_semi(cs) ==> cs[i] == cs.drop_first()[i - 1]);
    }
}

/// A path-pattern record body that reads back is the record of what it read.
proof fn lemma_dec_pat_sound(cs: Seq<char>)
    requires
        dec_pat(cs) is Some,
    ensures
        enc_pat(dec_pat(cs)->0) == cs,
{
    lemma_dec_hex_sound(cs.skip(1));
    assert(enc_pat(dec_pat(cs)->0) =~= cs);
}

/// An address-pattern record body that reads back is the record of what it
/// read.
proof fn lemma_dec_addr_sound(cs: Seq<char>)
    requires
        dec_addr(cs) is Some,
    ensures
        enc_addr(dec_addr(cs)->0) == cs,
{
    if cs[0] == 'a' {
        assert(enc_addr(dec_addr(cs)->0) =~= cs);
    } else if cs[0] == 't' {
        let bs = dec_hex(cs.skip(1))->0;
        lemma_dec_hex_sound(cs.skip(1));
        lemma_le_val_bound(bs);
        assert(pow256(2) == 65536) by {
            assert(pow256(0) == 1);
            assert(pow256(1) == 256);
        }
        let port = le_val(bs) as u16;
        assert(port as nat == le_val(bs));
        lemma_le_bytes_of(bs);
        assert(le_bytes(port as nat, 2) == bs);
        assert(enc_addr(dec_addr(cs)->0) =~= cs);
    } else {
        lemma_dec_hex_sound(cs.skip(1));
        assert(enc_addr(dec_addr(cs)->0) =~= cs);
    }
}

/// An operation record body that reads back is the record of what it read.
proof fn lemma_dec_op_body_sound(cs: Seq<char>)
    requires
        dec_op_body(cs) is Some,
    ensures
        enc_op_body(dec_op_body(cs)->0) == cs,
{
    if cs[0] == 'f' && (cs[1] == 'r' || cs[1] == 'm') {
        lemma_dec_pat_sound(cs.skip(2));
        assert(enc_op_body(dec_op_body(cs)->0) =~= cs);
    } else if cs[0] == 'n' && cs[1] == 'o' {
        lemma_dec_addr_sound(cs.skip(2));
        assert(enc_op_body(dec_op_body(cs)->0) =~= cs);
    } else if cs[0] == 's' && cs[1] == 'i' {
        assert(enc_op_body(dec_op_body(cs)->0) =~= cs);
    } else {
        let bs = dec_hex(cs.skip(2))->0;
        lemma_dec_hex_sound(cs.skip(2));
        lemma_le_val_bound(bs);
        assert(pow256(8) == 0x10000000000000000) by {
            assert(pow256(0) == 1);
            assert(pow256(1) == 0x100);
            assert(pow256(2) == 0x10000);
            assert(pow256(3) == 0x1000000);
            assert(pow256(4) == 0x100000000);
            assert(pow256(5) == 0x10000000000);
            assert(pow256(6) == 0x1000000000000);
            assert(pow256(7) == 0x100000000000000);
        }
        let v = le_val(bs) as u64;
        assert(v as nat == le_val(bs));
        lemma_le_bytes_of(bs);
        assert(le_bytes(v as nat, 8) == bs);
        assert(enc_op_body(dec_op_body(cs)->0) =~= cs);
    }
}

/// Transport accepts only canonical values: whatever operation sequence a
/// transport value reads back as, re-encoding that sequence gives the very
/// same value. Together with the round trip, encoding and reading are
/// mutually inverse, so distinct transported profiles never collide.
pub proof fn lemma_transport_canonical(cs: Seq<char>)
    requires
        dec_ops(cs) is Some,
    ensures
        enc_ops(dec_ops(cs)->0) == cs,
    decreases cs.len(),
{
    if cs.len() == 0 {
        assert(enc_ops(dec_ops(cs)->0) =~= cs);
    } else {
        let k = find_semi(cs);
        lemma_find_semi_props(cs);
        let body = cs.take(k);
        let op = dec_op_body(body)->0;
        let rest = cs.skip(k + 1);
        lemma_transport_canonical(rest);
        lemma_dec_op_body_sound(body);
        let ops = dec_ops(cs)->0;
        assert(ops == seq![op] + dec_ops(rest)->0);
        assert(ops[0] == op);
        assert(ops.drop_first() =~= dec_ops(rest)->0);
        assert(enc_ops(ops) == enc_op(op) + enc_ops(dec_ops(rest)->0));
        assert(cs[k] == ';');
        assert(enc_op(op) =~= cs.take(k + 1));
        assert(enc_ops(ops) =~= cs);
    }
}

/// Reads the hex spelling between two character positions back into bytes.
fn parse_hex_range(s: &str, from: usize, to: usize) -> (r: Option<Vec<u8>>)
    requires
        from <= to <= s@.len(),
    ensures
        match dec_hex(s@.subrange(from as int, to as int)) {
            Some(bs) => r matches Some(v) && v@ == bs,
            None => r is None,
        },
{
    let ghost whole = s@.subrange(from as int, to as int);
    if (to - from) % 2 == 1 {
        proof {
            lemma_dec_hex_odd(whole);
        }
        return None;
    }
    let mut out: Vec<u8> = Vec::new();
    let mut i: usize = from;
    while i < to
        invariant
            from <= i <= to <= s@.len(),
            (to - i) % 2 == 0,
            whole == s@.subrange(from as int, to as int),
            dec_hex(whole) == match dec_hex(s@.subrange(i as int, to as int)) {
                Some(rest) => Some(out@ + rest),
                None => None::<Seq<u8>>,
            },
        decreases to - i,
    {
        let ghost cur = s@.subrange(i as int, to as int);
        proof {
            assert(cur.len() >= 2);
            assert(cur[0] == s@[i as int]);
            assert(cur[1] == s@[i as int + 1]);
        }
        let h = match hex_val_of(s.get_char(i)) {
            Some(h) => h,
            None => {
                return None;
            },
        };
        let l = match hex_val_of(s.get_char(i + 1)) {
            Some(l) => l,
            None => {
                return None;
            },
        };
        let b: u8 = 16 * h + l;
        proof {
            assert(cur.skip(2) =~= s@.subrange(i as int + 2, to as int));
            assert(dec_hex(cur) == match dec_hex(cur.skip(2)) {
                Some(rest) => Some(seq![b] + rest),
                None => None::<Seq<u8>>,
            });
            assert forall|rest: Seq<u8>|
                out@.push(b) + rest =~= out@ + (seq![b] + rest) by {}
        }
        out.push(b);
        i = i + 2;
    }
    proof {
        assert(s@.subrange(i as int, to as int).len() == 0);
        assert(dec_hex(s@.subrange(i as int, to as int)) == Some(Seq::<u8>::empty()));
        assert(out@ + Seq::<u8>::empty() =~= out@);
    }
    Some(out)
}

/// The value a short little-endian byte string stands for.
fn le_value(bytes: &Vec<u8>) -> (r: u64)
    requires
        bytes@.len() <= 8,
    ensures
        r as nat == le_val(bytes@),
{
    let n = bytes.len();
    let mut acc: u64 = 0;
    let mut i: usize = n;
    while i > 0
        invariant
            i <= n,
            n == bytes@.len() <= 8,
            acc as nat == le_val(bytes@.skip(i as int)),
        decreases i,
    {
        i = i - 1;
        proof {
            let tail = bytes@.skip(i as int);
            assert(tail[0] == bytes@[i as int]);
            assert(tail.drop_first() =~= bytes@.skip(i as int + 1));
            assert(le_val(tail) == bytes@[i as int] as nat + 256 * le_val(
                bytes@.skip(i as int + 1),
            ));
            lemma_le_val_bound(bytes@.skip(i as int + 1));
            lemma_pow256_mono(bytes@.skip(i as int + 1).len() as nat, 7);
            assert(le_val(bytes@.skip(i as int + 1)) < pow256(7));
            assert(pow256(0) == 1);
            assert(pow256(1) == 0x100);
            assert(pow256(2) == 0x10000);
            assert(pow256(3) == 0x1000000);
            assert(pow256(4) == 0x100000000);
            assert(pow256(5) == 0x10000000000);
            assert(pow256(6) == 0x1000000000000);
            assert(pow256(7) == 0x100000000000000);
            assert(acc as nat == le_val(bytes@.skip(i as int + 1)));
            assert(acc < 0x100000000000000);
        }
        acc = acc * 256 + (bytes[i] as u64);
    }
    proof {
        assert(bytes@.skip(0) =~= bytes@);
    }
    acc
}

/// Reads a path-pattern record body between two character positions.
fn parse_pat_range(s: &str, from: usize, to: usize) -> (r: Option<PathPattern>)
    requires
        from <= to <= s@.len(),
    ensures
        match dec_pat(s@.subrange(from as int, to as int)) {
            Some(pv) => r matches Some(p) && p@ == pv,
            None => r is None,
        },
{
    let ghost seg = s@.subrange(from as int, to as int);
    if from == to {
        return None;
    }
    proof {
        assert(seg[0] == s@[from as int]);
        assert(seg.skip(1) =~= s@.subrange(from as int + 1, to as int));
    }
    let c = s.get_char(from);
    if c == 'l' {
        match parse_hex_range(s, from + 1, to) {
            Some(p) => Some(PathPattern::Literal(p)),
            None => None,
        }
    } else if c == 's' {
        match parse_hex_range(s, from + 1, to) {
            Some(p) => Some(PathPattern::Subpath(p)),
            None => None,
        }
    } else {
        None
    }
}

/// Reads an address-pattern record body between two character positions.
fn parse_addr_range(s: &str, from: usize, to: usize) -> (r: Option<AddressPattern>)
    requires
        from <= to <= s@.len(),
    ensures
        match dec_addr(s@.subrange(from as int, to as int)) {
            Some(av) => r matches Some(a) && a@ == av,
            None => r is None,
        },
{
    let ghost seg = s@.subrange(from as int, to as int);
    if from == to {
        return None;
    }
    proof {
        assert(seg[0] == s@[from as int]);
        assert(seg.skip(1) =~= s@.subrange(from as int + 1, to as int));
    }
    let c = s.get_char(from);
    if c == 'a' {
        if to - from == 1 {
            Some(AddressPattern::All)
        } else {
            None
        }
    } else if c == 't' {
        match parse_hex_range(s, from + 1, to) {
            Some(bs) => {
                if bs.len() == 2 {
                    proof {
                        lemma_le_val_bound(bs@);
                        assert(pow256(2) == 65536) by {
                            assert(pow256(0) == 1);
                            assert(pow256(1) == 256);
                        }
                    }
                    let port = le_value(&bs);
                    Some(AddressPattern::Tcp(port as u16))
                } else {
                    None
                }
            },
            None => None,
        }
    } else if c == 'l' {
        match parse_hex_range(s, from + 1, to) {
            Some(p) => Some(AddressPattern::LocalSocket(p)),
            None => None,
        }
    } else {
        None
    }
}

/// Reads one operation's record body between two character positions.
fn parse_op_range(s: &str, from: usize, to: usize) -> (r: Option<Operation>)
    requires
        from <= to <= s@.len(),
    ensures
        match dec_op_body(s@.subrange(from as int, to as int)) {
            Some(ov) => r matches Some(o) && o@ == ov,
            None => r is None,
        },
{
    let ghost seg = s@.subrange(from as int, to as int);
    if to - from < 2 {
        return None;
    }
    proof {
        assert(seg[0] == s@[from as int]);
        assert(seg[1] == s@[from as int + 1]);
        assert(seg.skip(2) =~= s@.subrange(from as int + 2, to as int));
    }
    let c0 = s.get_char(from);
    let c1 = s.get_char(from + 1);
    if c0 == 'f' && c1 == 'r' {
        match parse_pat_range(s, from + 2, to) {
            Some(p) => Some(Operation::FileReadAll(p)),
            None => None,
        }
    } else if c0 == 'f' && c1 == 'm' {
        match parse_pat_range(s, from + 2, to) {
            Some(p) => Some(Operation::FileReadMetadata(p)),
            None => None,
        }
    } else if c0 == 'n' && c1 == 'o' {
        match parse_addr_range(s, from + 2, to) {
            Some(a) => Some(Operation::NetworkOutbound(a)),
            None => None,
        }
    } else if c0 == 's' && c1 == 'i' {
        if to - from == 2 {
            Some(Operation::SystemInfoRead)
        } else {
            None
        }
    } else if c0 == 'p' && c1 == 's' {
        match parse_hex_range(s, from + 2, to) {
            Some(bs) => {
                if bs.len() == 8 {
                    proof {
                        lemma_le_val_bound(bs@);
                        assert(pow256(8) == 0x10000000000000000) by {
                            assert(pow256(0) == 1);
                            assert(pow256(1) == 0x100);
                            assert(pow256(2) == 0x10000);
                            assert(pow256(3) == 0x1000000);
                            assert(pow256(4) == 0x100000000);
                            assert(pow256(5) == 0x10000000000);
                            assert(pow256(6) == 0x1000000000000);
                            assert(pow256(7) == 0x100000000000000);
                        }
                    }
                    let v = le_value(&bs);
                    Some(Operation::PlatformSpecific(v))
                } else {
                    None
                }
            },
            None => None,
        }
    } else {
        None
    }
}

/// Reconstructs a profile from its transported records, re-validating the
/// operations against this platform's classifier exactly as original
/// construction does: a malformed transport value, or one holding an
/// operation this platform can never grant, yields nothing.
pub fn parse_profile(s: &str) -> (r: Option<Profile>)
    ensures
        match dec_ops(s@) {
            None => r is None,
            Some(ops) => if all_supported(ops) {
                r matches Some(p) && p@ == ops
            } else {
                r is None
            },
        },
{
    let n = s.unicode_len();
    let mut acc: Vec<Operation> = Vec::new();
    let mut pos: usize = 0;
    proof {
        assert(s@.subrange(0, n as int) =~= s@);
        assert(op_views(acc@) =~= Seq::<OperationView>::empty());
        assert forall|rest: Seq<OperationView>| op_views(acc@) + rest =~= rest by {}
    }
    while pos < n
        invariant
            pos <= n,
            n == s@.len(),
            dec_ops(s@) == match dec_ops(s@.subrange(pos as int, n as int)) {
                Some(rest) => Some(op_views(acc@) + rest),
                None => None::<Seq<OperationView>>,
            },
        decreases n - pos,
    {
        let ghost cur = s@.subrange(pos as int, n as int);
        // find this record's terminator
        let mut j: usize = pos;
        let mut found: bool = false;
        while j < n && !found
            invariant
                pos <= j <= n,
                n == s@.len(),
                forall|t: int| pos <= t < j ==> s@[t] != ';',
                found ==> j < n && s@[j as int] == ';',
            decreases n - j + (if found { 0int } else { 1int }),
        {
            if s.get_char(j) == ';' {
                found = true;
            } else {
                j = j + 1;
            }
        }
        proof {
            assert(forall|t: int| 0 <= t < j - pos ==> cur[t] == s@[t + pos]);
            if found {
                assert(cur[j - pos] == s@[j as int]);
            }
            lemma_find_semi_at(cur, j - pos);
        }
        if !found {
            // no terminator: the remainder is malformed
            proof {
                assert(find_semi(cur) == cur.len());
                assert(cur.len() > 0);
                assert(dec_ops(cur) is None);
            }
            return None;
        }
        let op = match parse_op_range(s, pos, j) {
            Some(o) => o,
            None => {
                proof {
                    assert(cur.take(j - pos) =~= s@.subrange(pos as int, j as int));
                    assert(dec_ops(cur) is None);
                }
                return None;
            },
        };
        proof {
            assert(cur.take(j - pos) =~= s@.subrange(pos as int, j as int));
            assert(cur.skip(j - pos + 1) =~= s@.subrange(j as int + 1, n as int));
            assert(dec_ops(cur) == match dec_ops(s@.subrange(j as int + 1, n as int)) {
                Some(rest) => Some(seq![op@] + rest),
                None => None::<Seq<OperationView>>,
            });
            assert(op_views(acc@.push(op)) =~= op_views(acc@).push(op@));
            assert forall|rest: Seq<OperationView>|
                op_views(acc@) + (seq![op@] + rest) =~= op_views(acc@).push(op@) + rest by {}
        }
        acc.push(op);
        pos = j + 1;
    }
    proof {
        assert(s@.subrange(pos as int, n as int).len() == 0);
        assert(dec_ops(s@.subrange(pos as int, n as int)) == Some(Seq::<OperationView>::empty()));
        assert(op_views(acc@) + Seq::<OperationView>::empty() =~= op_views(acc@));
        assert(dec_ops(s@) == Some(op_views(acc@)));
    }
    match Profile::new(acc) {
        Ok(p) => Some(p),
        Err(_) => None,
    }
}

} // verus!
