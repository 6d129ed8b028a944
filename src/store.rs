//! What the block producer asks the store about a transaction, and how the
//! store's answer is decoded and checked before it is trusted.
use vstd::prelude::*;

use crate::account::{is_valid_account_id, valid_account_id};
use crate::digest::{is_felt, zero_digest, AccountId, BlockNumber, Digest, NoteId, Nullifier};
use crate::text::{account_hex, account_id_text, decimal, decimal_text, digest_hex, digest_text, push_text};
use crate::errors::{ConversionError, MissingFieldHelper, NotePathsError, TxInputsError};

verus! {

/// A digest as the wire carries it: four integers, not yet checked.
#[derive(Clone, Copy, Debug, PartialEq, Eq)]
pub struct ProtoDigest {
    pub d0: u64,
    pub d1: u64,
    pub d2: u64,
    pub d3: u64,
}

/// An account identifier as the wire carries it.
#[derive(Clone, Copy, Debug, PartialEq, Eq)]
pub struct ProtoAccountId {
    pub id: u64,
}

/// The store's view of the transaction's account.
#[derive(Clone, Debug, PartialEq, Eq)]
pub struct AccountTransactionInputRecord {
    pub account_id: Option<ProtoAccountId>,
    /// All zeros when the store does not know the account.
    pub account_hash: Option<ProtoDigest>,
}

/// The consumption status of one nullifier; block number zero means unconsumed.
#[derive(Clone, Debug, PartialEq, Eq)]
pub struct NullifierTransactionInputRecord {
    pub nullifier: Option<ProtoDigest>,
    pub block_num: u32,
}

/// The store's answer to a request for transaction inputs.
#[derive(Clone, Debug, PartialEq, Eq)]
pub struct GetTransactionInputsResponse {
    pub account_state: Option<AccountTransactionInputRecord>,
    pub nullifiers: Vec<NullifierTransactionInputRecord>,
    pub missing_unauthenticated_notes: Vec<ProtoDigest>,
    pub block_height: u32,
}

impl ProtoDigest {
    /// Every element is a canonical field element.
    pub open spec fn is_valid(self) -> bool {
        is_felt(self.d0) && is_felt(self.d1) && is_felt(self.d2) && is_felt(self.d3)
    }

    pub open spec fn digest(self) -> Digest {
        Digest { e0: self.d0, e1: self.d1, e2: self.d2, e3: self.d3 }
    }

    /// Decodes the digest, refusing an element outside the field.
    pub fn to_digest(&self) -> (r: Result<Digest, ConversionError>)
        ensures
            r is Ok <==> self.is_valid(),
            r matches Ok(d) ==> d == self.digest() && d.wf(),
            r is Err ==> r == Err::<Digest, ConversionError>(ConversionError::NotAValidFelt),
    {
        if self.d0 < crate::digest::MODULUS && self.d1 < crate::digest::MODULUS
            && self.d2 < crate::digest::MODULUS && self.d3 < crate::digest::MODULUS {
            Ok(Digest { e0: self.d0, e1: self.d1, e2: self.d2, e3: self.d3 })
        } else {
            Err(ConversionError::NotAValidFelt)
        }
    }

    /// Encodes a digest for the wire.
    pub fn from_digest(d: &Digest) -> (r: ProtoDigest)
        ensures
            r.digest() == *d,
            d.wf() ==> r.is_valid(),
    {
        ProtoDigest { d0: d.e0, d1: d.e1, d2: d.e2, d3: d.e3 }
    }
}

impl MissingFieldHelper for AccountTransactionInputRecord {
    open spec fn entity_name() -> &'static str {
        "AccountTransactionInputRecord"
    }

    fn missing_field(field_name: &'static str) -> (r: ConversionError) {
        ConversionError::MissingFieldInProtobufRepresentation {
            entity: "AccountTransactionInputRecord",
            field_name,
        }
    }
}

impl MissingFieldHelper for NullifierTransactionInputRecord {
    open spec fn entity_name() -> &'static str {
        "NullifierTransactionInputRecord"
    }

    fn missing_field(field_name: &'static str) -> (r: ConversionError) {
        ConversionError::MissingFieldInProtobufRepresentation {
            entity: "NullifierTransactionInputRecord",
            field_name,
        }
    }
}

impl MissingFieldHelper for GetTransactionInputsResponse {
    open spec fn entity_name() -> &'static str {
        "GetTransactionInputsResponse"
    }

    fn missing_field(field_name: &'static str) -> (r: ConversionError) {
        ConversionError::MissingFieldInProtobufRepresentation {
            entity: "GetTransactionInputsResponse",
            field_name,
        }
    }
}

pub open spec fn missing(entity: &'static str, field_name: &'static str) -> ConversionError {
    ConversionError::MissingFieldInProtobufRepresentation { entity, field_name }
}

/// The account facts as decoded from the wire.
#[derive(Clone, Copy, Debug, PartialEq, Eq)]
pub struct AccountState {
    pub account_id: AccountId,
    /// `None` when the store does not know the account.
    pub account_hash: Option<Digest>,
}

/// The all-zero hash stands for an account that the store does not know.
pub open spec fn known_hash(d: Digest) -> Option<Digest> {
    if d == zero_digest() {
        None
    } else {
        Some(d)
    }
}

/// What a height on the wire says: zero is "not consumed".
pub open spec fn nonzero(block_num: u32) -> Option<BlockNumber> {
    if block_num == 0 {
        None
    } else {
        Some(block_num)
    }
}

impl AccountTransactionInputRecord {
    pub open spec fn decode(self) -> Result<AccountState, ConversionError> {
        if self.account_id is None {
            Err(missing(Self::entity_name(), "account_id"))
        } else if !valid_account_id(self.account_id->Some_0.id) {
            Err(ConversionError::NotAValidFelt)
        } else if self.account_hash is None {
            Err(missing(Self::entity_name(), "account_hash"))
        } else if !self.account_hash->Some_0.is_valid() {
            Err(ConversionError::NotAValidFelt)
        } else {
            Ok(
                AccountState {
                    account_id: self.account_id->Some_0.id,
                    account_hash: known_hash(self.account_hash->Some_0.digest()),
                },
            )
        }
    }

    /// Decodes the account facts; both fields are required, and the account
    /// identifier must be well formed.
    pub fn to_account_state(&self) -> (r: Result<AccountState, ConversionError>)
        ensures
            r == self.decode(),
    {
        let account_id = match self.account_id {
            Some(id) => id.id,
            None => {
                return Err(Self::missing_field("account_id"));
            },
        };
        if !is_valid_account_id(account_id) {
            return Err(ConversionError::NotAValidFelt);
        }
        let hash = match &self.account_hash {
            Some(h) => h.to_digest(),
            None => {
                return Err(Self::missing_field("account_hash"));
            },
        };
        let hash = match hash {
            Ok(h) => h,
            Err(e) => {
                return Err(e);
            },
        };
        assert(account_id < crate::digest::MODULUS);
        let account_hash = if hash == Digest::zero() {
            None
        } else {
            Some(hash)
        };
        Ok(AccountState { account_id, account_hash })
    }
}

impl NullifierTransactionInputRecord {
    /// Why the record does not decode, if it does not.
    pub open spec fn error(self) -> Option<ConversionError> {
        match self.nullifier {
            None => Some(missing(Self::entity_name(), "nullifier")),
            Some(d) => if d.is_valid() {
                None
            } else {
                Some(ConversionError::NotAValidFelt)
            },
        }
    }
}

/// The error of the first record that does not decode.
pub open spec fn first_record_error(records: Seq<NullifierTransactionInputRecord>) -> Option<
    ConversionError,
>
    decreases records.len(),
{
    if records.len() == 0 {
        None
    } else {
        match first_record_error(records.drop_last()) {
            Some(e) => Some(e),
            None => records.last().error(),
        }
    }
}

/// The nullifier statuses that the records state; a later record for a
/// nullifier replaces an earlier one.
pub open spec fn records_map(records: Seq<NullifierTransactionInputRecord>) -> Map<
    Nullifier,
    Option<BlockNumber>,
>
    decreases records.len(),
{
    if records.len() == 0 {
        Map::empty()
    } else {
        records_map(records.drop_last()).insert(
            records.last().nullifier->Some_0.digest(),
            nonzero(records.last().block_num),
        )
    }
}

/// The map that a list of distinct entries stands for.
pub open spec fn entries_map(entries: Seq<(Nullifier, Option<BlockNumber>)>) -> Map<
    Nullifier,
    Option<BlockNumber>,
>
    decreases entries.len(),
{
    if entries.len() == 0 {
        Map::empty()
    } else {
        entries_map(entries.drop_last()).insert(entries.last().0, entries.last().1)
    }
}

pub open spec fn distinct_keys(entries: Seq<(Nullifier, Option<BlockNumber>)>) -> bool {
    forall|i: int, j: int| 0 <= i < j < entries.len() ==> #[trigger] entries[i].0 != #[trigger] entries[j].0
}

pub open spec fn note_ids(notes: Seq<ProtoDigest>) -> Seq<NoteId> {
    notes.map_values(|d: ProtoDigest| d.digest())
}

impl GetTransactionInputsResponse {
    /// Why the response does not decode, if it does not: the first failure
    /// among the account, the nullifier records in order, then the notes.
    pub open spec fn error(self) -> Option<ConversionError> {
        match self.account_state {
            None => Some(missing(Self::entity_name(), "account_state")),
            Some(a) => match a.decode() {
                Err(e) => Some(e),
                Ok(_) => match first_record_error(self.nullifiers@) {
                    Some(e) => Some(e),
                    None => if forall|i: int|
                        0 <= i < self.missing_unauthenticated_notes@.len()
                            ==> (#[trigger] self.missing_unauthenticated_notes@[i]).is_valid() {
                        None
                    } else {
                        Some(ConversionError::NotAValidFelt)
                    },
                },
            },
        }
    }

    pub open spec fn account(self) -> AccountState {
        self.account_state->Some_0.decode()->Ok_0
    }
}

/// Information needed from the store to verify a transaction.
#[derive(Clone, Debug, PartialEq, Eq)]
pub struct TransactionInputs {
    pub account_id: AccountId,
    /// The account's committed state hash; `None` when the store does not know it.
    pub account_hash: Option<Digest>,
    /// Each nullifier of the transaction, once, with the height of the block
    /// that consumed it or `None` when unconsumed (never `Some(0)`).
    pub nullifiers: Vec<(Nullifier, Option<BlockNumber>)>,
    /// The unauthenticated input notes that the store has no record of.
    pub missing_unauthenticated_notes: Vec<NoteId>,
    pub current_block_height: u32,
}

/// A height, or `None`.
pub open spec fn height_text(h: Option<BlockNumber>) -> Seq<char> {
    match h {
        Some(b) => decimal(b as nat),
        None => "None"@,
    }
}

/// One nullifier and its status: `<nullifier>: <height or None>`.
pub open spec fn entry_text(e: (Nullifier, Option<BlockNumber>)) -> Seq<char> {
    digest_hex(e.0) + ": "@ + height_text(e.1)
}

/// The entries, separated by `, `.
pub open spec fn joined_entries(s: Seq<(Nullifier, Option<BlockNumber>)>) -> Seq<char>
    decreases s.len(),
{
    if s.len() == 0 {
        Seq::empty()
    } else if s.len() == 1 {
        entry_text(s[0])
    } else {
        joined_entries(s.drop_last()) + ", "@ + entry_text(s.last())
    }
}

/// `None` for no entries, else `{ <entries> }`.
pub open spec fn nullifiers_text(s: Seq<(Nullifier, Option<BlockNumber>)>) -> Seq<char> {
    if s.len() == 0 {
        "None"@
    } else {
        "{ "@ + joined_entries(s) + " }"@
    }
}

impl TransactionInputs {
    /// The values can be rendered: a canonical account identifier and digests.
    pub open spec fn renderable(&self) -> bool {
        &&& self.account_id < crate::digest::MODULUS
        &&& (self.account_hash matches Some(d) ==> d.wf())
        &&& forall|i: int| 0 <= i < self.nullifiers@.len() ==> (#[trigger] self.nullifiers@[i]).0.wf()
    }

    /// `{ account_id: <id>, account_hash: <hash or None>, nullifiers: <entries> }`.
    pub open spec fn text(&self) -> Seq<char> {
        "{ account_id: "@ + account_hex(self.account_id) + ", account_hash: "@ + match self.account_hash {
            Some(d) => digest_hex(d),
            None => "None"@,
        } + ", nullifiers: "@ + nullifiers_text(self.nullifiers@) + " }"@
    }

    /// Renders the inputs as text, for logs.
    pub fn to_text(&self) -> (r: String)
        requires
            self.renderable(),
        ensures
            r@ == self.text(),
    {
        let mut joined = String::new();
        let mut i: usize = 0;
        while i < self.nullifiers.len()
            invariant
                i <= self.nullifiers@.len(),
                self.renderable(),
                joined@ == joined_entries(self.nullifiers@.take(i as int)),
            decreases self.nullifiers@.len() - i,
        {
            let ghost before = joined@;
            if i > 0 {
                push_text(&mut joined, ", ");
            }
            let (n, h) = self.nullifiers[i];
            let dt = digest_text(&n);
            push_text(&mut joined, dt.as_str());
            push_text(&mut joined, ": ");
            match h {
                Some(b) => {
                    let bt = decimal_text(b);
                    push_text(&mut joined, bt.as_str());
                },
                None => push_text(&mut joined, "None"),
            }
            proof {
                let t = self.nullifiers@.take(i + 1);
                assert(t.drop_last() =~= self.nullifiers@.take(i as int));
                assert(t.last() == self.nullifiers@[i as int]);
                if i == 0 {
                    assert(joined@ =~= entry_text(t[0]));
                } else {
                    assert(joined@ =~= before + ", "@ + entry_text(t.last()));
                }
            }
            i = i + 1;
        }
        assert(self.nullifiers@.take(i as int) =~= self.nullifiers@);
        let mut r = String::new();
        push_text(&mut r, "{ account_id: ");
        let at = account_id_text(self.account_id);
        push_text(&mut r, at.as_str());
        push_text(&mut r, ", account_hash: ");
        match &self.account_hash {
            Some(d) => {
                let ht = digest_text(d);
                push_text(&mut r, ht.as_str());
            },
            None => push_text(&mut r, "None"),
        }
        push_text(&mut r, ", nullifiers: ");
        if self.nullifiers.len() == 0 {
            push_text(&mut r, "None");
        } else {
            push_text(&mut r, "{ ");
            push_text(&mut r, joined.as_str());
            push_text(&mut r, " }");
        }
        push_text(&mut r, " }");
        assert(r@ =~= self.text());
        r
    }

    /// The nullifier statuses as a map.
    pub open spec fn nullifier_map(&self) -> Map<Nullifier, Option<BlockNumber>> {
        entries_map(self.nullifiers@)
    }

    /// These are exactly the inputs that a response which decodes states.
    pub open spec fn decoded_from(&self, response: GetTransactionInputsResponse) -> bool {
        &&& self.account_id == response.account().account_id
        &&& self.account_hash == response.account().account_hash
        &&& distinct_keys(self.nullifiers@)
        &&& self.nullifier_map() == records_map(response.nullifiers@)
        &&& self.missing_unauthenticated_notes@ == note_ids(response.missing_unauthenticated_notes@)
        &&& self.current_block_height == response.block_height
        &&& self.renderable()
    }

    /// Decodes the store's answer. Block number zero decodes to `None`; the
    /// missing notes keep the order and the repetitions of the answer.
    pub fn try_from(response: GetTransactionInputsResponse) -> (r: Result<Self, ConversionError>)
        ensures
            r is Ok <==> response.error() is None,
            r matches Err(e) ==> response.error() == Some(e),
            r matches Ok(t) ==> t.decoded_from(response),
    {
        let state = match &response.account_state {
            Some(a) => a.to_account_state(),
            None => {
                return Err(GetTransactionInputsResponse::missing_field("account_state"));
            },
        };
        let state = match state {
            Ok(s) => s,
            Err(e) => {
                return Err(e);
            },
        };
        assert(response.account_state->Some_0.decode() is Ok);
        let mut nullifiers: Vec<(Nullifier, Option<BlockNumber>)> = Vec::new();
        let mut i: usize = 0;
        while i < response.nullifiers.len()
            invariant
                i <= response.nullifiers@.len(),
                first_record_error(response.nullifiers@.take(i as int)) is None,
                response.account_state is Some,
                response.account_state->Some_0.decode() is Ok,
                distinct_keys(nullifiers@),
                forall|k: int| 0 <= k < nullifiers@.len() ==> (#[trigger] nullifiers@[k]).0.wf(),
                entries_map(nullifiers@) == records_map(response.nullifiers@.take(i as int)),
            decreases response.nullifiers@.len() - i,
        {
            let record = &response.nullifiers[i];
            let ghost prefix = response.nullifiers@.take(i as int);
            let ghost next = response.nullifiers@.take(i + 1);
            proof {
                assert(next.drop_last() =~= prefix);
                assert(next.last() == response.nullifiers@[i as int]);
                lemma_first_error_extends(response.nullifiers@, i as int);
                if record.error() is Some {
                    lemma_first_error_prefix(response.nullifiers@, i + 1);
                    assert(response.error() == record.error());
                }
            }
            let nullifier = match &record.nullifier {
                Some(d) => match d.to_digest() {
                    Ok(n) => n,
                    Err(e) => {
                        return Err(e);
                    },
                },
                None => {
                    return Err(NullifierTransactionInputRecord::missing_field("nullifier"));
                },
            };
            let block = if record.block_num == 0 {
                None
            } else {
                Some(record.block_num)
            };
            set_entry(&mut nullifiers, nullifier, block);
            i = i + 1;
        }
        assert(response.nullifiers@.take(i as int) =~= response.nullifiers@);
        let mut notes: Vec<NoteId> = Vec::new();
        let mut j: usize = 0;
        while j < response.missing_unauthenticated_notes.len()
            invariant
                j <= response.missing_unauthenticated_notes@.len(),
                response.account_state is Some,
                response.account_state->Some_0.decode() is Ok,
                first_record_error(response.nullifiers@) is None,
                forall|k: int| 0 <= k < j ==> (#[trigger] response.missing_unauthenticated_notes@[k]).is_valid(),
                notes@ == note_ids(response.missing_unauthenticated_notes@.take(j as int)),
            decreases response.missing_unauthenticated_notes@.len() - j,
        {
            let note = match response.missing_unauthenticated_notes[j].to_digest() {
                Ok(n) => n,
                Err(e) => {
                    assert(!response.missing_unauthenticated_notes@[j as int].is_valid());
                    assert(response.error() == Some(ConversionError::NotAValidFelt));
                    return Err(e);
                },
            };
            notes.push(note);
            proof {
                assert(note_ids(response.missing_unauthenticated_notes@.take(j + 1)) =~= note_ids(
                    response.missing_unauthenticated_notes@.take(j as int),
                ).push(note));
            }
            j = j + 1;
        }
        assert(response.missing_unauthenticated_notes@.take(j as int)
            =~= response.missing_unauthenticated_notes@);
        Ok(TransactionInputs {
            account_id: state.account_id,
            account_hash: state.account_hash,
            nullifiers,
            missing_unauthenticated_notes: notes,
            current_block_height: response.block_height,
        })
    }
}

/// Accepts the store's answer for the transaction of account `expected`: it
/// must decode, and it must speak of that account.
pub fn check_tx_inputs(expected: AccountId, response: GetTransactionInputsResponse) -> (r: Result<
    TransactionInputs,
    TxInputsError,
>)
    ensures
        response.error() matches Some(e) ==> r == Err::<TransactionInputs, TxInputsError>(
            TxInputsError::ConversionError(e),
        ),
        response.error() is None && response.account().account_id != expected ==> r == Err::<
            TransactionInputs,
            TxInputsError,
        >(TxInputsError::MalformedResponse { expected, got: response.account().account_id }),
        r is Ok <==> response.error() is None && response.account().account_id == expected,
        r matches Ok(t) ==> t.decoded_from(response) && t.account_id == expected,
{
    let tx_inputs = match TransactionInputs::try_from(response) {
        Ok(t) => t,
        Err(e) => {
            return Err(TxInputsError::ConversionError(e));
        },
    };
    if tx_inputs.account_id != expected {
        return Err(TxInputsError::MalformedResponse { expected, got: tx_inputs.account_id });
    }
    Ok(tx_inputs)
}

/// The request for the inputs of one transaction.
#[derive(Clone, Debug, PartialEq, Eq)]
pub struct GetTransactionInputsRequest {
    pub account_id: Option<ProtoAccountId>,
    pub nullifiers: Vec<ProtoDigest>,
    pub unauthenticated_notes: Vec<ProtoDigest>,
}

/// The request for the inputs of a block.
#[derive(Clone, Debug, PartialEq, Eq)]
pub struct GetBlockInputsRequest {
    pub account_ids: Vec<ProtoAccountId>,
    pub nullifiers: Vec<ProtoDigest>,
    pub unauthenticated_notes: Vec<ProtoDigest>,
}

/// The request for the authentication paths of notes.
#[derive(Clone, Debug, PartialEq, Eq)]
pub struct GetNoteAuthenticationInfoRequest {
    pub note_ids: Vec<ProtoDigest>,
}

pub open spec fn proto_digests(ds: Seq<Digest>) -> Seq<ProtoDigest> {
    ds.map_values(|d: Digest| ProtoDigest { d0: d.e0, d1: d.e1, d2: d.e2, d3: d.e3 })
}

pub open spec fn proto_account_ids(ids: Seq<AccountId>) -> Seq<ProtoAccountId> {
    ids.map_values(|id: AccountId| ProtoAccountId { id })
}

/// Encodes digests for the wire, in order.
pub fn to_proto_digests(ds: &Vec<Digest>) -> (r: Vec<ProtoDigest>)
    ensures
        r@ == proto_digests(ds@),
{
    let mut r: Vec<ProtoDigest> = Vec::new();
    let mut i: usize = 0;
    while i < ds.len()
        invariant
            i <= ds@.len(),
            r@ == proto_digests(ds@.take(i as int)),
        decreases ds@.len() - i,
    {
        r.push(ProtoDigest::from_digest(&ds[i]));
        assert(proto_digests(ds@.take(i + 1)) =~= proto_digests(ds@.take(i as int)).push(r@.last()));
        i = i + 1;
    }
    assert(ds@.take(i as int) =~= ds@);
    r
}

impl GetTransactionInputsRequest {
    /// Names the account, the nullifiers the transaction produces and the
    /// unauthenticated notes it consumes.
    pub fn new(account_id: AccountId, nullifiers: &Vec<Nullifier>, notes: &Vec<NoteId>) -> (r: Self)
        ensures
            r.account_id == Some(ProtoAccountId { id: account_id }),
            r.nullifiers@ == proto_digests(nullifiers@),
            r.unauthenticated_notes@ == proto_digests(notes@),
    {
        GetTransactionInputsRequest {
            account_id: Some(ProtoAccountId { id: account_id }),
            nullifiers: to_proto_digests(nullifiers),
            unauthenticated_notes: to_proto_digests(notes),
        }
    }
}

impl GetBlockInputsRequest {
    /// Names the updated accounts, the produced nullifiers and the referenced notes.
    pub fn new(account_ids: &Vec<AccountId>, nullifiers: &Vec<Nullifier>, notes: &Vec<NoteId>) -> (r: Self)
        ensures
            r.account_ids@ == proto_account_ids(account_ids@),
            r.nullifiers@ == proto_digests(nullifiers@),
            r.unauthenticated_notes@ == proto_digests(notes@),
    {
        let mut ids: Vec<ProtoAccountId> = Vec::new();
        let mut i: usize = 0;
        while i < account_ids.len()
            invariant
                i <= account_ids@.len(),
                ids@ == proto_account_ids(account_ids@.take(i as int)),
            decreases account_ids@.len() - i,
        {
            ids.push(ProtoAccountId { id: account_ids[i] });
            assert(proto_account_ids(account_ids@.take(i + 1)) =~= proto_account_ids(
                account_ids@.take(i as int),
            ).push(ids@.last()));
            i = i + 1;
        }
        assert(account_ids@.take(i as int) =~= account_ids@);
        GetBlockInputsRequest {
            account_ids: ids,
            nullifiers: to_proto_digests(nullifiers),
            unauthenticated_notes: to_proto_digests(notes),
        }
    }
}

impl GetNoteAuthenticationInfoRequest {
    pub fn new(notes: &Vec<NoteId>) -> (r: Self)
        ensures
            r.note_ids@ == proto_digests(notes@),
    {
        GetNoteAuthenticationInfoRequest { note_ids: to_proto_digests(notes) }
    }
}

/// The store's answer to a request for note authentication paths; the
/// proofs keep the form that the note layer gives them.
#[derive(Clone, Debug, PartialEq, Eq)]
pub struct GetNoteAuthenticationInfoResponse<P> {
    pub proofs: Option<P>,
}

impl<P> MissingFieldHelper for GetNoteAuthenticationInfoResponse<P> {
    open spec fn entity_name() -> &'static str {
        "GetNoteAuthenticationInfoResponse"
    }

    fn missing_field(field_name: &'static str) -> (r: ConversionError) {
        ConversionError::MissingFieldInProtobufRepresentation {
            entity: "GetNoteAuthenticationInfoResponse",
            field_name,
        }
    }
}

/// The proofs that the answer must carry; their absence is a missing field
/// of the answer, not an empty answer.
pub fn note_authentication_proofs<P>(response: GetNoteAuthenticationInfoResponse<P>) -> (r: Result<
    P,
    NotePathsError,
>)
    ensures
        response.proofs matches Some(p) ==> r == Ok::<P, NotePathsError>(p),
        response.proofs is None ==> r == Err::<P, NotePathsError>(
            NotePathsError::ConversionError(
                missing("GetNoteAuthenticationInfoResponse", "proofs"),
            ),
        ),
{
    match response.proofs {
        Some(p) => Ok(p),
        None => Err(
            NotePathsError::ConversionError(
                GetNoteAuthenticationInfoResponse::<P>::missing_field("proofs"),
            ),
        ),
    }
}

/// If no record before position `i` fails, the first failure up to `i` is
/// that of record `i`.
proof fn lemma_first_error_extends(records: Seq<NullifierTransactionInputRecord>, i: int)
    requires
        0 <= i < records.len(),
        first_record_error(records.take(i)) is None,
    ensures
        first_record_error(records.take(i + 1)) == records[i].error(),
{
    assert(records.take(i + 1).drop_last() =~= records.take(i));
}

/// A failure within a prefix is the first failure of the whole.
proof fn lemma_first_error_prefix(records: Seq<NullifierTransactionInputRecord>, n: int)
    requires
        0 <= n <= records.len(),
        first_record_error(records.take(n)) is Some,
    ensures
        first_record_error(records) == first_record_error(records.take(n)),
    decreases records.len(),
{
    if n == records.len() {
        assert(records.take(n) =~= records);
    } else {
        assert(records.drop_last().take(n) =~= records.take(n));
        lemma_first_error_prefix(records.drop_last(), n);
    }
}

/// Records `block` for `nullifier`, replacing an earlier entry for it.
fn set_entry(
    entries: &mut Vec<(Nullifier, Option<BlockNumber>)>,
    nullifier: Nullifier,
    block: Option<BlockNumber>,
)
    requires
        distinct_keys(old(entries)@),
        nullifier.wf(),
        forall|k: int| 0 <= k < old(entries)@.len() ==> (#[trigger] old(entries)@[k]).0.wf(),
    ensures
        distinct_keys(final(entries)@),
        forall|k: int| 0 <= k < final(entries)@.len() ==> (#[trigger] final(entries)@[k]).0.wf(),
        entries_map(final(entries)@) == entries_map(old(entries)@).insert(nullifier, block),
{
    let mut i: usize = 0;
    while i < entries.len()
        invariant
            i <= entries@.len(),
            entries@ == old(entries)@,
            distinct_keys(entries@),
            nullifier.wf(),
            forall|k: int| 0 <= k < entries@.len() ==> (#[trigger] entries@[k]).0.wf(),
            forall|j: int| 0 <= j < i ==> (#[trigger] entries@[j]).0 != nullifier,
        decreases entries@.len() - i,
    {
        if entries[i].0 == nullifier {
            proof {
                lemma_entries_update(entries@, i as int, block);
            }
            let ghost prev = entries@;
            entries.set(i, (nullifier, block));
            assert forall|k: int| 0 <= k < entries@.len() implies (#[trigger] entries@[k]).0.wf() by {
                if k != i {
                    assert(entries@[k] == prev[k]);
                    assert(prev[k].0.wf());
                } else {
                    assert(entries@[k] == (nullifier, block));
                }
            }
            return;
        }
        i = i + 1;
    }
    let ghost before = entries@;
    entries.push((nullifier, block));
    assert(entries@.drop_last() =~= before);
}

/// Replacing the value of a present key in distinct entries is an insert.
proof fn lemma_entries_update(
    entries: Seq<(Nullifier, Option<BlockNumber>)>,
    i: int,
    block: Option<BlockNumber>,
)
    requires
        0 <= i < entries.len(),
        distinct_keys(entries),
    ensures
        distinct_keys(entries.update(i, (entries[i].0, block))),
        entries_map(entries.update(i, (entries[i].0, block))) == entries_map(entries).insert(
            entries[i].0,
            block,
        ),
    decreases entries.len(),
{
    let k = entries[i].0;
    let updated = entries.update(i, (k, block));
    assert forall|a: int, b: int| 0 <= a < b < updated.len() implies #[trigger] updated[a].0
        != #[trigger] updated[b].0 by {
        assert(updated[a].0 == entries[a].0);
        assert(updated[b].0 == entries[b].0);
    }
    let prev = entries.drop_last();
    if i == entries.len() - 1 {
        assert(updated.drop_last() =~= prev);
        assert(entries_map(updated) =~= entries_map(entries).insert(k, block));
    } else {
        assert(updated.drop_last() =~= prev.update(i, (k, block)));
        assert(distinct_keys(prev));
        lemma_entries_update(prev, i, block);
        assert(entries.last().0 != k);
        assert(entries_map(updated) =~= entries_map(entries).insert(k, block));
    }
}

} // verus!
