use cnidarium::codec::{decode_node, decode_value, encode_node, encode_value};
use cnidarium::PruneError;
use jmt::storage::{LeafNode, Node};
use jmt::{KeyHash, ValueHash};

fn leaf() -> Node {
    Node::Leaf(LeafNode::new(KeyHash([7u8; 32]), ValueHash([9u8; 32])))
}

#[test]
fn value_rows_have_a_fixed_layout() {
    assert_eq!(encode_value(&None).unwrap(), vec![0]);
    assert_eq!(encode_value(&Some(vec![])).unwrap(), vec![1, 0, 0, 0, 0]);
    assert_eq!(
        encode_value(&Some(b"abc".to_vec())).unwrap(),
        vec![1, 3, 0, 0, 0, b'a', b'b', b'c']
    );
    let long = vec![5u8; 0x1234];
    let row = encode_value(&Some(long.clone())).unwrap();
    assert_eq!(&row[..5], &[1, 0x34, 0x12, 0, 0]);
    assert_eq!(&row[5..], &long[..]);
}

#[test]
fn value_rows_are_read_back() {
    for value in vec![None, Some(vec![]), Some(b"post_migration_value".to_vec())] {
        let row = encode_value(&value).unwrap();
        assert_eq!(decode_value(&row).unwrap(), value);
    }
}

#[test]
fn other_bytes_are_not_value_rows() {
    let rows: Vec<&[u8]> = vec![
        &[],
        &[2],
        &[0, 0],
        &[1],
        &[1, 1, 0, 0],
        &[1, 1, 0, 0, 0],
        &[1, 1, 0, 0, 0, 7, 7],
    ];
    for row in rows {
        assert!(
            matches!(decode_value(row), Err(PruneError::Decode(_))),
            "{row:?}"
        );
    }
    assert_eq!(decode_value(&[1, 1, 0, 0, 0, 7]).unwrap(), Some(vec![7]));
}

#[test]
fn decoding_errors_are_described() {
    let error = decode_value(&[2]).unwrap_err();
    assert!(!error.message().is_empty());
}

#[test]
fn nodes_are_read_back() {
    for node in vec![Node::Null, leaf()] {
        let row = encode_node(&node).unwrap();
        assert_eq!(decode_node(&row).unwrap(), node);
    }
}

#[test]
fn node_rows_have_a_fixed_layout() {
    assert_eq!(encode_node(&Node::Null).unwrap(), vec![0]);
    let mut expected = vec![2u8];
    expected.extend_from_slice(&[7u8; 32]);
    expected.extend_from_slice(&[9u8; 32]);
    assert_eq!(encode_node(&leaf()).unwrap(), expected);
}

#[test]
fn other_bytes_are_not_node_rows() {
    let mut trailing = encode_node(&leaf()).unwrap();
    trailing.push(0);
    let truncated = encode_node(&leaf()).unwrap()[..20].to_vec();
    for row in vec![vec![], vec![3], trailing, truncated] {
        assert!(
            matches!(decode_node(&row), Err(PruneError::Decode(_))),
            "{row:?}"
        );
    }
}

#[test]
fn encoding_errors_are_described_by_their_cause() {
    let cause = borsh::io::Error::new(borsh::io::ErrorKind::InvalidData, "value too long");
    assert_eq!(PruneError::Encode(cause).message(), "value too long");
}
