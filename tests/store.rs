use nullifier_state::digest::{Digest, MODULUS};
use nullifier_state::errors::{ConversionError, NotePathsError, TxInputsError};
use nullifier_state::store::{
    check_tx_inputs, note_authentication_proofs, GetNoteAuthenticationInfoResponse, AccountTransactionInputRecord,
    GetBlockInputsRequest, GetNoteAuthenticationInfoRequest, GetTransactionInputsRequest,
    GetTransactionInputsResponse, NullifierTransactionInputRecord, ProtoAccountId, ProtoDigest,
    TransactionInputs,
};

const ACCOUNT: u64 = 0x1F;
const OTHER_ACCOUNT: u64 = 0x3F;

fn pd(seed: u64) -> ProtoDigest {
    ProtoDigest { d0: seed, d1: seed + 1, d2: seed + 2, d3: seed + 3 }
}

fn dg(seed: u64) -> Digest {
    Digest::new(seed, seed + 1, seed + 2, seed + 3)
}

fn response(account: u64, records: Vec<NullifierTransactionInputRecord>, notes: Vec<ProtoDigest>) -> GetTransactionInputsResponse {
    GetTransactionInputsResponse {
        account_state: Some(AccountTransactionInputRecord {
            account_id: Some(ProtoAccountId { id: account }),
            account_hash: Some(pd(90)),
        }),
        nullifiers: records,
        missing_unauthenticated_notes: notes,
        block_height: 17,
    }
}

fn record(seed: u64, block_num: u32) -> NullifierTransactionInputRecord {
    NullifierTransactionInputRecord { nullifier: Some(pd(seed)), block_num }
}

#[test]
fn zero_block_number_decodes_to_unconsumed() {
    let t = TransactionInputs::try_from(response(ACCOUNT, vec![record(1, 0), record(10, 4)], vec![])).unwrap();
    assert_eq!(t.nullifiers, vec![(dg(1), None), (dg(10), Some(4))]);
    assert_eq!(t.account_id, ACCOUNT);
    assert_eq!(t.account_hash, Some(dg(90)));
    assert_eq!(t.current_block_height, 17);
}

#[test]
fn missing_notes_keep_order_and_repetitions() {
    let t = TransactionInputs::try_from(response(ACCOUNT, vec![], vec![pd(30), pd(20), pd(30)])).unwrap();
    assert_eq!(t.missing_unauthenticated_notes, vec![dg(30), dg(20), dg(30)]);
}

#[test]
fn later_record_for_a_nullifier_wins() {
    let t = TransactionInputs::try_from(response(ACCOUNT, vec![record(1, 3), record(2, 0), record(1, 0)], vec![])).unwrap();
    assert_eq!(t.nullifiers, vec![(dg(1), None), (dg(2), None)]);
}

#[test]
fn zero_account_hash_means_unknown_account() {
    let mut r = response(ACCOUNT, vec![], vec![]);
    r.account_state = Some(AccountTransactionInputRecord {
        account_id: Some(ProtoAccountId { id: ACCOUNT }),
        account_hash: Some(ProtoDigest { d0: 0, d1: 0, d2: 0, d3: 0 }),
    });
    assert_eq!(TransactionInputs::try_from(r).unwrap().account_hash, None);
}

#[test]
fn missing_account_state_is_a_missing_field() {
    let mut r = response(ACCOUNT, vec![], vec![]);
    r.account_state = None;
    assert_eq!(
        TransactionInputs::try_from(r),
        Err(ConversionError::MissingFieldInProtobufRepresentation {
            entity: "GetTransactionInputsResponse",
            field_name: "account_state",
        })
    );
}

#[test]
fn missing_account_fields_are_named() {
    let mut r = response(ACCOUNT, vec![], vec![]);
    r.account_state = Some(AccountTransactionInputRecord { account_id: None, account_hash: Some(pd(1)) });
    assert_eq!(
        TransactionInputs::try_from(r.clone()),
        Err(ConversionError::MissingFieldInProtobufRepresentation {
            entity: "AccountTransactionInputRecord",
            field_name: "account_id",
        })
    );
    r.account_state = Some(AccountTransactionInputRecord { account_id: Some(ProtoAccountId { id: ACCOUNT }), account_hash: None });
    assert_eq!(
        TransactionInputs::try_from(r),
        Err(ConversionError::MissingFieldInProtobufRepresentation {
            entity: "AccountTransactionInputRecord",
            field_name: "account_hash",
        })
    );
}

#[test]
fn missing_nullifier_is_a_missing_field() {
    let r = response(ACCOUNT, vec![record(1, 2), NullifierTransactionInputRecord { nullifier: None, block_num: 3 }], vec![]);
    assert_eq!(
        TransactionInputs::try_from(r),
        Err(ConversionError::MissingFieldInProtobufRepresentation {
            entity: "NullifierTransactionInputRecord",
            field_name: "nullifier",
        })
    );
}

#[test]
fn out_of_field_values_are_refused() {
    let bad = ProtoDigest { d0: 1, d1: MODULUS, d2: 0, d3: 0 };
    let r = response(ACCOUNT, vec![NullifierTransactionInputRecord { nullifier: Some(bad), block_num: 3 }], vec![]);
    assert_eq!(TransactionInputs::try_from(r), Err(ConversionError::NotAValidFelt));
    let r = response(ACCOUNT, vec![], vec![pd(1), bad]);
    assert_eq!(TransactionInputs::try_from(r), Err(ConversionError::NotAValidFelt));
    assert_eq!(ProtoDigest { d0: MODULUS - 1, d1: 0, d2: 0, d3: 0 }.to_digest(), Ok(Digest::new(MODULUS - 1, 0, 0, 0)));
}

#[test]
fn answer_for_another_account_is_refused() {
    let r = check_tx_inputs(OTHER_ACCOUNT, response(ACCOUNT, vec![record(1, 0)], vec![]));
    assert_eq!(r, Err(TxInputsError::MalformedResponse { expected: OTHER_ACCOUNT, got: ACCOUNT }));
}

#[test]
fn answer_for_the_account_is_accepted() {
    let t = check_tx_inputs(ACCOUNT, response(ACCOUNT, vec![record(1, 9)], vec![pd(4)])).unwrap();
    assert_eq!(t.account_id, ACCOUNT);
    assert_eq!(t.nullifiers, vec![(dg(1), Some(9))]);
    assert_eq!(t.missing_unauthenticated_notes, vec![dg(4)]);
}

#[test]
fn undecodable_answer_is_a_conversion_error() {
    let mut r = response(ACCOUNT, vec![], vec![]);
    r.account_state = None;
    assert!(matches!(check_tx_inputs(ACCOUNT, r), Err(TxInputsError::ConversionError(_))));
}

#[test]
fn requests_carry_their_items_in_order() {
    let r = GetTransactionInputsRequest::new(8, &vec![dg(1), dg(2)], &vec![dg(3)]);
    assert_eq!(r.account_id, Some(ProtoAccountId { id: 8 }));
    assert_eq!(r.nullifiers, vec![pd(1), pd(2)]);
    assert_eq!(r.unauthenticated_notes, vec![pd(3)]);
    let r = GetBlockInputsRequest::new(&vec![4, 2], &vec![dg(5)], &vec![]);
    assert_eq!(r.account_ids, vec![ProtoAccountId { id: 4 }, ProtoAccountId { id: 2 }]);
    assert_eq!(r.nullifiers, vec![pd(5)]);
    assert!(r.unauthenticated_notes.is_empty());
    assert_eq!(GetNoteAuthenticationInfoRequest::new(&vec![dg(7)]).note_ids, vec![pd(7)]);
}

#[test]
fn note_proofs_are_required() {
    assert_eq!(note_authentication_proofs(GetNoteAuthenticationInfoResponse { proofs: Some(3u8) }), Ok(3));
    assert_eq!(
        note_authentication_proofs(GetNoteAuthenticationInfoResponse::<u8> { proofs: None }),
        Err(NotePathsError::ConversionError(ConversionError::MissingFieldInProtobufRepresentation {
            entity: "GetNoteAuthenticationInfoResponse",
            field_name: "proofs",
        }))
    );
}

#[test]
fn malformed_account_ids_are_refused() {
    for id in [5u64, 0xC000_0000_0000_001F] {
        let mut r = response(ACCOUNT, vec![], vec![]);
        r.account_state = Some(AccountTransactionInputRecord {
            account_id: Some(ProtoAccountId { id }),
            account_hash: Some(pd(1)),
        });
        assert_eq!(TransactionInputs::try_from(r), Err(ConversionError::NotAValidFelt));
    }
}

#[test]
fn inputs_render_as_text() {
    let z = "0000000000000000";
    let t = TransactionInputs {
        account_id: ACCOUNT,
        account_hash: Some(Digest::new(1, 2, 3, 4)),
        nullifiers: vec![(Digest::new(5, 0, 0, 0), None), (Digest::new(0x1234, 0, 0, 0), Some(42))],
        missing_unauthenticated_notes: vec![],
        current_block_height: 3,
    };
    let expected = format!(
        "{{ account_id: 0x000000000000001f, account_hash: 0x0100000000000000020000000000000003000000000000000400000000000000, nullifiers: {{ 0x0500000000000000{z}{z}{z}: None, 0x3412000000000000{z}{z}{z}: 42 }} }}"
    );
    assert_eq!(t.to_text(), expected);
}

#[test]
fn inputs_without_hash_or_nullifiers_render_none() {
    let t = TransactionInputs {
        account_id: OTHER_ACCOUNT,
        account_hash: None,
        nullifiers: vec![],
        missing_unauthenticated_notes: vec![],
        current_block_height: 0,
    };
    assert_eq!(t.to_text(), "{ account_id: 0x000000000000003f, account_hash: None, nullifiers: None }");
}
