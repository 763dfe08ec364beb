use marlin_core::transaction::{
    ConfirmedTransaction, Deployment, Execution, FinalizeOperation, Transaction,
};

fn sample_confirmed_transactions() -> Vec<ConfirmedTransaction> {
    vec![
        ConfirmedTransaction::AcceptedDeploy(
            4,
            Transaction { id: 0x1122_3344_5566_7788 },
            vec![FinalizeOperation { op: 7 }, FinalizeOperation { op: 9 }],
        ),
        ConfirmedTransaction::AcceptedExecute(
            5,
            Transaction { id: 0xdead_beef },
            vec![FinalizeOperation { op: 3 }],
        ),
        ConfirmedTransaction::RejectedDeploy(
            6,
            Transaction { id: 42 },
            Deployment { edition: 1 },
        ),
        ConfirmedTransaction::RejectedExecute(
            7,
            Transaction { id: 43 },
            Execution { root: 0xabcd },
        ),
    ]
}

#[test]
fn test_bytes() {
    for expected in sample_confirmed_transactions() {
        // Check the byte representation.
        let expected_bytes = expected.write_le().unwrap();
        assert_eq!(expected, ConfirmedTransaction::read_le(&expected_bytes).unwrap());
        assert!(ConfirmedTransaction::read_le(&expected_bytes[1..].to_vec()).is_err());
    }
}

#[test]
fn test_exact_encoding() {
    let t = ConfirmedTransaction::RejectedDeploy(
        0x0102_0304,
        Transaction { id: 5 },
        Deployment { edition: 6 },
    );
    let bytes = t.write_le().unwrap();
    assert_eq!(
        bytes,
        vec![
            2, // variant
            4, 3, 2, 1, // index, little endian
            5, 0, 0, 0, 0, 0, 0, 0, // transaction id
            6, 0, 0, 0, 0, 0, 0, 0, // rejected payload
        ]
    );
}

#[test]
fn test_non_canonical_rejected() {
    let t = ConfirmedTransaction::AcceptedDeploy(
        1,
        Transaction { id: 2 },
        vec![FinalizeOperation { op: 3 }],
    );
    let mut bytes = t.write_le().unwrap();
    // Trailing data is not canonical.
    bytes.push(0);
    assert!(ConfirmedTransaction::read_le(&bytes).is_err());
    // An unknown variant byte is rejected.
    let bad = vec![9; 21];
    assert!(ConfirmedTransaction::read_le(&bad).is_err());
    // A truncated frame is rejected.
    assert!(ConfirmedTransaction::read_le(&vec![0, 1, 2]).is_err());
}

#[test]
fn test_too_many_operations() {
    let ops = vec![FinalizeOperation { op: 0 }; 0x10000];
    let t = ConfirmedTransaction::AcceptedExecute(1, Transaction { id: 2 }, ops);
    assert!(t.write_le().is_err());
}
