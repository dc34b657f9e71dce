//! The byte formats of database rows: fixed-width integers, value rows, node
//! rows and node keys.
use crate::error::PruneError;
use jmt::storage::{Node, NodeKey};
use vstd::prelude::*;

verus! {

/// The eight big-endian bytes of an integer.
pub open spec fn be64(n: u64) -> Seq<u8> {
    seq![
        (n >> 56) as u8,
        (n >> 48) as u8,
        (n >> 40) as u8,
        (n >> 32) as u8,
        (n >> 24) as u8,
        (n >> 16) as u8,
        (n >> 8) as u8,
        n as u8,
    ]
}

/// Two integers with the same big-endian bytes are the same integer.
pub proof fn be64_is_injective(a: u64, b: u64)
    requires
        be64(a) == be64(b),
    ensures
        a == b,
{
    let x = be64(a);
    let y = be64(b);
    assert(x[0] == y[0] && x[1] == y[1] && x[2] == y[2] && x[3] == y[3] && x[4] == y[4] && x[5]
        == y[5] && x[6] == y[6] && x[7] == y[7]);
    assert(a == b) by (bit_vector)
        requires
            (a >> 56) as u8 == (b >> 56) as u8,
            (a >> 48) as u8 == (b >> 48) as u8,
            (a >> 40) as u8 == (b >> 40) as u8,
            (a >> 32) as u8 == (b >> 32) as u8,
            (a >> 24) as u8 == (b >> 24) as u8,
            (a >> 16) as u8 == (b >> 16) as u8,
            (a >> 8) as u8 == (b >> 8) as u8,
            a as u8 == b as u8,
    ;
}

/// Appends the big-endian bytes of `n` to `buffer`.
pub(crate) fn push_be64(buffer: &mut Vec<u8>, n: u64)
    ensures
        final(buffer)@ == old(buffer)@ + be64(n),
{
    buffer.push((n >> 56) as u8);
    buffer.push((n >> 48) as u8);
    buffer.push((n >> 40) as u8);
    buffer.push((n >> 32) as u8);
    buffer.push((n >> 24) as u8);
    buffer.push((n >> 16) as u8);
    buffer.push((n >> 8) as u8);
    buffer.push(n as u8);
    assert(buffer@ =~= old(buffer)@ + be64(n));
}

/// The four little-endian bytes of an integer.
pub open spec fn le32(n: u32) -> Seq<u8> {
    seq![n as u8, (n >> 8) as u8, (n >> 16) as u8, (n >> 24) as u8]
}

/// The bytes of an optional byte string.
pub open spec fn value_view(value: Option<Vec<u8>>) -> Option<Seq<u8>> {
    match value {
        Some(bytes) => Some(bytes@),
        None => None,
    }
}

/// Whether a value is short enough for its length to be written in a row.
pub open spec fn value_fits(value: Option<Seq<u8>>) -> bool {
    value matches Some(bytes) ==> bytes.len() <= u32::MAX
}

/// What a value row holds: a zero byte for a deleted value, otherwise a one
/// byte, the length in four little-endian bytes, and the value itself.
pub open spec fn value_encoding(value: Option<Seq<u8>>) -> Seq<u8> {
    match value {
        None => seq![0u8],
        Some(bytes) => seq![1u8] + le32(bytes.len() as u32) + bytes,
    }
}

/// The value that a row holds, if it holds one.
pub open spec fn value_decoding(row: Seq<u8>) -> Option<Option<Seq<u8>>> {
    if row == seq![0u8] {
        Some(None)
    } else if 5 <= row.len() <= u32::MAX + 5 && row[0] == 1 && row.subrange(1, 5) == le32(
        (row.len() - 5) as u32,
    ) {
        Some(Some(row.subrange(5, row.len() as int)))
    } else {
        None
    }
}

/// Reading a value row gives back the value that was written.
pub proof fn value_row_round_trip(value: Option<Seq<u8>>)
    requires
        value_fits(value),
    ensures
        value_decoding(value_encoding(value)) == Some(value),
{
    let row = value_encoding(value);
    match value {
        None => {},
        Some(bytes) => {
            assert(row[0] == 1);
            assert(row.subrange(1, 5) =~= le32(bytes.len() as u32));
            assert(row.subrange(5, row.len() as int) =~= bytes);
            assert(row != seq![0u8]) by {
                assert(seq![0u8].len() == 1);
            }
        },
    }
}

/// A row from which a value is read is exactly the row that writing this
/// value produces, so no two rows hold the same value.
pub proof fn value_row_is_canonical(row: Seq<u8>)
    ensures
        value_decoding(row) matches Some(value) ==> value_fits(value) && value_encoding(value)
            == row,
{
    if let Some(value) = value_decoding(row) {
        if let Some(bytes) = value {
            assert(row =~= seq![1u8] + row.subrange(1, 5) + row.subrange(5, row.len() as int));
        }
    }
}

/// `borsh::to_vec` on an optional byte string. It fails exactly on a byte
/// string whose length does not fit in 32 bits; otherwise it returns one tag
/// byte, followed for a present value by the little-endian length and the
/// bytes.
#[verifier::external_body]
fn borsh_value_to_vec(value: &Option<Vec<u8>>) -> (row: Result<Vec<u8>, borsh::io::Error>)
    ensures
        row is Ok <==> value_fits(value_view(*value)),
        row matches Ok(bytes) ==> bytes@ == value_encoding(value_view(*value)),
{
    borsh::to_vec(value)
}

/// `borsh::from_slice` into an optional byte string. It accepts the tag byte
/// zero alone, and the tag byte one followed by a little-endian length and
/// exactly that many bytes; it refuses everything else.
#[verifier::external_body]
fn borsh_value_from_slice(row: &[u8]) -> (value: Result<Option<Vec<u8>>, borsh::io::Error>)
    ensures
        value is Ok <==> value_decoding(row@) is Some,
        value matches Ok(v) ==> value_decoding(row@) == Some(value_view(v)),
{
    borsh::from_slice(row)
}

/// Encodes the content of a value row.
pub fn encode_value(value: &Option<Vec<u8>>) -> (row: Result<Vec<u8>, PruneError>)
    ensures
        row is Ok <==> value_fits(value_view(*value)),
        row matches Ok(bytes) ==> bytes@ == value_encoding(value_view(*value)),
        row matches Err(error) ==> error is Encode,
{
    match borsh_value_to_vec(value) {
        Ok(bytes) => Ok(bytes),
        Err(error) => Err(PruneError::Encode(error)),
    }
}

/// Decodes the content of a value row.
pub fn decode_value(row: &[u8]) -> (value: Result<Option<Vec<u8>>, PruneError>)
    ensures
        value is Ok <==> value_decoding(row@) is Some,
        value matches Ok(v) ==> value_decoding(row@) == Some(value_view(v)),
        value matches Err(error) ==> error is Decode,
{
    match borsh_value_from_slice(row) {
        Ok(value) => Ok(value),
        Err(error) => Err(PruneError::Decode(error)),
    }
}

/// A node of the tree; nothing inside it is read.
#[verifier::external_type_specification]
#[verifier::external_body]
pub struct ExNode(Node);

/// What `borsh::to_vec` makes of a tree node.
pub uninterp spec fn node_encoding(node: Node) -> Seq<u8>;

/// `borsh::to_vec` on a tree node. A node is made of fixed-size parts, so
/// writing it to memory always succeeds; the bytes depend on the node alone.
#[verifier::external_body]
fn borsh_node_to_vec(node: &Node) -> (row: Result<Vec<u8>, borsh::io::Error>)
    ensures
        row is Ok,
        row->Ok_0@ == node_encoding(*node),
{
    borsh::to_vec(node)
}

/// `borsh::from_slice` into a tree node. It accepts exactly the bytes that
/// `borsh::to_vec` produces of some node, and returns that node.
#[verifier::external_body]
fn borsh_node_from_slice(row: &[u8]) -> (node: Result<Node, borsh::io::Error>)
    ensures
        node matches Ok(n) ==> node_encoding(n) == row@,
        forall|n: Node| #[trigger] node_encoding(n) == row@ ==> node is Ok && node->Ok_0 == n,
{
    borsh::from_slice(row)
}

/// Encodes the content of a node row.
pub fn encode_node(node: &Node) -> (row: Result<Vec<u8>, PruneError>)
    ensures
        row is Ok,
        row->Ok_0@ == node_encoding(*node),
{
    match borsh_node_to_vec(node) {
        Ok(bytes) => Ok(bytes),
        Err(error) => Err(PruneError::Encode(error)),
    }
}

/// Decodes the content of a node row.
pub fn decode_node(row: &[u8]) -> (node: Result<Node, PruneError>)
    ensures
        node matches Ok(n) ==> node_encoding(n) == row@,
        forall|n: Node|
            #![trigger node_encoding(n)]
            node_encoding(n) == row@ ==> node is Ok && node->Ok_0 == n,
        node matches Err(error) ==> error is Decode,
{
    match borsh_node_from_slice(row) {
        Ok(node) => Ok(node),
        Err(error) => Err(PruneError::Decode(error)),
    }
}

/// The key of a node of the tree: a version, and the path to the node.
#[verifier::external_type_specification]
#[verifier::external_body]
pub struct ExNodeKey(NodeKey);

/// What `NodeKey::version` returns: the version at which the node was created.
pub uninterp spec fn node_key_version(key: NodeKey) -> u64;

/// `NodeKey::version`: a field of the key.
#[verifier::external_body]
pub(crate) fn version_of_node_key(key: &NodeKey) -> (version: u64)
    ensures
        version == node_key_version(*key),
{
    key.version()
}

/// What `borsh::to_vec` makes of a node key; nothing if it refuses the key.
pub uninterp spec fn node_key_encoding(key: NodeKey) -> Option<Seq<u8>>;

/// `borsh::to_vec` on a node key. Whether it succeeds, and with which bytes,
/// depends on the key alone. The bytes hold all of the key, so no other key has
/// them. It refuses only a path whose length does not fit in 32 bits; this
/// length cannot be seen from outside the key, so nothing is said of it.
#[verifier::external_body]
fn borsh_node_key_to_vec(key: &NodeKey) -> (bytes: Result<Vec<u8>, borsh::io::Error>)
    ensures
        bytes is Ok <==> node_key_encoding(*key) is Some,
        bytes matches Ok(b) ==> node_key_encoding(*key) == Some(b@),
        bytes matches Ok(b) ==> forall|other: NodeKey| #[trigger]
            node_key_encoding(other) == Some(b@) ==> other == *key,
{
    borsh::to_vec(key)
}

/// Encodes a node key.
pub fn encode_node_key(key: &NodeKey) -> (bytes: Result<Vec<u8>, PruneError>)
    ensures
        bytes is Ok <==> node_key_encoding(*key) is Some,
        match bytes {
            Ok(b) => {
                &&& node_key_encoding(*key) == Some(b@)
                &&& forall|other: NodeKey| #[trigger]
                    node_key_encoding(other) == Some(b@) ==> other == *key
            },
            Err(error) => error is Encode,
        },
{
    match borsh_node_key_to_vec(key) {
        Ok(bytes) => Ok(bytes),
        Err(error) => Err(PruneError::Encode(error)),
    }
}

/// The number that eight bytes stand for, the most significant first.
pub open spec fn big_endian(bytes: Seq<u8>) -> int {
    bytes[0] * 0x100_0000_0000_0000 + bytes[1] * 0x1_0000_0000_0000 + bytes[2] * 0x100_0000_0000
        + bytes[3] * 0x1_0000_0000 + bytes[4] * 0x100_0000 + bytes[5] * 0x1_0000 + bytes[6] * 0x100
        + bytes[7]
}

/// The eight bytes of an integer are its digits in base 256, the most
/// significant first.
pub proof fn be64_is_the_number(n: u64)
    ensures
        be64(n).len() == 8,
        big_endian(be64(n)) == n,
{
    assert(n == ((n >> 56) as u8) * 0x100_0000_0000_0000 + ((n >> 48) as u8) * 0x1_0000_0000_0000
        + ((n >> 40) as u8) * 0x100_0000_0000 + ((n >> 32) as u8) * 0x1_0000_0000 + ((n
        >> 24) as u8) * 0x100_0000 + ((n >> 16) as u8) * 0x1_0000 + ((n >> 8) as u8) * 0x100
        + (n as u8)) by (bit_vector);
}

/// The four bytes of an integer are its digits in base 256, the least
/// significant first.
pub proof fn le32_is_the_number(n: u32)
    ensures
        le32(n).len() == 4,
        le32(n)[0] + le32(n)[1] * 0x100 + le32(n)[2] * 0x1_0000 + le32(n)[3] * 0x100_0000 == n,
{
    assert(n == (n as u8) + ((n >> 8) as u8) * 0x100 + ((n >> 16) as u8) * 0x1_0000 + ((n
        >> 24) as u8) * 0x100_0000) by (bit_vector);
}

/// Four bytes that stand for the same number are the same bytes.
proof fn le32_of_the_number(bytes: Seq<u8>, n: u32)
    requires
        bytes.len() == 4,
        bytes[0] + bytes[1] * 0x100 + bytes[2] * 0x1_0000 + bytes[3] * 0x100_0000 == n,
    ensures
        bytes == le32(n),
{
    let (a, b, c, d) = (bytes[0], bytes[1], bytes[2], bytes[3]);
    assert(a == n as u8 && b == (n >> 8) as u8 && c == (n >> 16) as u8 && d == (n >> 24) as u8)
        by (bit_vector)
        requires
            a + b * 0x100 + c * 0x1_0000 + d * 0x100_0000 == n,
    ;
    assert(bytes =~= le32(n));
}

/// Whether these are the bytes of a row that holds a present value: a one, the
/// length in four bytes with the least significant first, and the value.
pub open spec fn is_row_of(row: Seq<u8>, value: Seq<u8>) -> bool {
    &&& row.len() == value.len() + 5
    &&& row[0] == 1
    &&& row[1] + row[2] * 0x100 + row[3] * 0x1_0000 + row[4] * 0x100_0000 == value.len()
    &&& forall|i: int| 0 <= i < value.len() ==> row[i + 5] == #[trigger] value[i]
}

/// Every value of at most four gigabytes fits, and no longer one.
pub proof fn values_fit_up_to_the_length_field(value: Option<Seq<u8>>)
    ensures
        value_fits(value) <==> (value is None || value->0.len() <= 0xffff_ffff),
{
}

/// The row of a deleted value is a single zero byte.
pub proof fn deleted_values_are_a_zero_byte()
    ensures
        value_encoding(None) == seq![0u8],
        value_decoding(seq![0u8]) == Some(None::<Seq<u8>>),
{
}

/// The row of a present value has exactly one form.
pub proof fn present_values_have_one_row(row: Seq<u8>, value: Seq<u8>)
    requires
        value.len() <= 0xffff_ffff,
    ensures
        value_encoding(Some(value)) == row <==> is_row_of(row, value),
        value_decoding(row) == Some(Some(value)) <==> is_row_of(row, value),
{
    let n = value.len() as u32;
    let encoded = value_encoding(Some(value));
    le32_is_the_number(n);
    assert(is_row_of(encoded, value)) by {
        assert(forall|i: int| 0 <= i < value.len() ==> encoded[i + 5] == #[trigger] value[i]);
        assert(encoded[1] == le32(n)[0] && encoded[2] == le32(n)[1] && encoded[3] == le32(n)[2]
            && encoded[4] == le32(n)[3]);
    }
    if is_row_of(row, value) {
        le32_of_the_number(row.subrange(1, 5), n);
        assert forall|i: int| 0 <= i < row.len() implies row[i] == encoded[i] by {
            if i >= 5 {
                assert(row[(i - 5) + 5] == value[i - 5]);
            } else if i > 0 {
                assert(row.subrange(1, 5)[i - 1] == le32(n)[i - 1]);
            }
        }
        assert(row =~= encoded);
    }
    value_row_round_trip(Some(value));
    value_row_is_canonical(row);
}

/// A row that is neither that of a deleted value nor that of a present one
/// holds no value.
pub proof fn other_rows_hold_no_value(row: Seq<u8>)
    ensures
        value_decoding(row) is None <==> row != seq![0u8] && forall|value: Seq<u8>|
            value.len() <= 0xffff_ffff ==> !#[trigger] is_row_of(row, value),
        value_decoding(row) == Some(None::<Seq<u8>>) <==> row == seq![0u8],
{
    value_row_is_canonical(row);
    match value_decoding(row) {
        Some(Some(value)) => {
            present_values_have_one_row(row, value);
        },
        Some(None) => {},
        None => {
            assert forall|value: Seq<u8>| value.len() <= 0xffff_ffff implies !#[trigger] is_row_of(
                row,
                value,
            ) by {
                present_values_have_one_row(row, value);
            }
        },
    }
}

} // verus!
