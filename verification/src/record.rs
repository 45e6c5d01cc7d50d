//! The stored voting-session record, in its current layout and in the
//! previous one that still carried the `confirmations` field.

use crate::fields::{
    all_width, bytes_at, bytes_enc, fixed_at, lemma_bytes_roundtrip, lemma_bytes_shape,
    lemma_fixed_roundtrip, lemma_list_roundtrip, lemma_list_shape, lemma_u32_roundtrip, list_at,
    list_enc, push_bytes, push_list, read_bytes, read_fixed, read_list, read_u32_at, u32_at, views,
};
use crate::scale::{
    compact_u32_bytes, le_u32_bytes, lemma_compact_u32_prefix_len, lemma_compact_u32_roundtrip,
    push_u32,
};
use vstd::prelude::*;

verus! {

/// Encoded size of an ECDSA signature, as held in the `confirmations` list of
/// the previous layout.
pub const ECDSA_SIGNATURE_LEN: usize = 65;

/// What the stored layout depends on in a given runtime: the encoded widths of
/// an account id and of a block number, the two length bounds of the record's
/// bounded vectors, and the encoded width of the map's key.
#[derive(Clone, Copy, Debug, PartialEq, Eq)]
pub struct Layout {
    pub account_len: usize,
    pub block_number_len: usize,
    pub session_id_bound: u32,
    pub max_validators: u32,
    pub map_key_len: usize,
}

/// A voting session in the current layout. Account ids and block numbers are
/// kept as their encoded bytes.
#[derive(Debug, PartialEq, Eq)]
pub struct VotingSessionData {
    pub voting_session_id: Vec<u8>,
    pub threshold: u32,
    pub ayes: Vec<Vec<u8>>,
    pub nays: Vec<Vec<u8>>,
    pub end_of_voting_period: Vec<u8>,
    pub created_at_block: Vec<u8>,
}

/// A voting session in the previous layout, with its `confirmations`.
#[derive(Debug, PartialEq, Eq)]
pub struct OldVotingSessionData {
    pub voting_session_id: Vec<u8>,
    pub threshold: u32,
    pub ayes: Vec<Vec<u8>>,
    pub nays: Vec<Vec<u8>>,
    pub end_of_voting_period: Vec<u8>,
    pub confirmations: Vec<Vec<u8>>,
    pub created_at_block: Vec<u8>,
}

/// The contents of a [`VotingSessionData`].
pub struct VotingSessionView {
    pub voting_session_id: Seq<u8>,
    pub threshold: u32,
    pub ayes: Seq<Seq<u8>>,
    pub nays: Seq<Seq<u8>>,
    pub end_of_voting_period: Seq<u8>,
    pub created_at_block: Seq<u8>,
}

/// The contents of an [`OldVotingSessionData`].
pub struct OldVotingSessionView {
    pub voting_session_id: Seq<u8>,
    pub threshold: u32,
    pub ayes: Seq<Seq<u8>>,
    pub nays: Seq<Seq<u8>>,
    pub end_of_voting_period: Seq<u8>,
    pub confirmations: Seq<Seq<u8>>,
    pub created_at_block: Seq<u8>,
}

impl View for VotingSessionData {
    type V = VotingSessionView;

    open spec fn view(&self) -> VotingSessionView {
        VotingSessionView {
            voting_session_id: self.voting_session_id@,
            threshold: self.threshold,
            ayes: views(self.ayes@),
            nays: views(self.nays@),
            end_of_voting_period: self.end_of_voting_period@,
            created_at_block: self.created_at_block@,
        }
    }
}

impl View for OldVotingSessionData {
    type V = OldVotingSessionView;

    open spec fn view(&self) -> OldVotingSessionView {
        OldVotingSessionView {
            voting_session_id: self.voting_session_id@,
            threshold: self.threshold,
            ayes: views(self.ayes@),
            nays: views(self.nays@),
            end_of_voting_period: self.end_of_voting_period@,
            confirmations: views(self.confirmations@),
            created_at_block: self.created_at_block@,
        }
    }
}

/// A current-layout record at `pos`, and the position after it.
pub open spec fn voting_session_at(s: Seq<u8>, pos: int, l: Layout) -> Option<
    (VotingSessionView, int),
> {
    match bytes_at(s, pos, l.session_id_bound) {
        None => None,
        Some((id, p1)) => match u32_at(s, p1) {
            None => None,
            Some((threshold, p2)) => match list_at(s, p2, l.max_validators, l.account_len as nat) {
                None => None,
                Some((ayes, p3)) => match list_at(s, p3, l.max_validators, l.account_len as nat) {
                    None => None,
                    Some((nays, p4)) => match fixed_at(s, p4, l.block_number_len as nat) {
                        None => None,
                        Some((end, p5)) => match fixed_at(s, p5, l.block_number_len as nat) {
                            None => None,
                            Some((created, p6)) => Some(
                                (
                                    VotingSessionView {
                                        voting_session_id: id,
                                        threshold,
                                        ayes,
                                        nays,
                                        end_of_voting_period: end,
                                        created_at_block: created,
                                    },
                                    p6,
                                ),
                            ),
                        },
                    },
                },
            },
        },
    }
}

/// A previous-layout record at `pos`, and the position after it.
pub open spec fn old_voting_session_at(s: Seq<u8>, pos: int, l: Layout) -> Option<
    (OldVotingSessionView, int),
> {
    match bytes_at(s, pos, l.session_id_bound) {
        None => None,
        Some((id, p1)) => match u32_at(s, p1) {
            None => None,
            Some((threshold, p2)) => match list_at(s, p2, l.max_validators, l.account_len as nat) {
                None => None,
                Some((ayes, p3)) => match list_at(s, p3, l.max_validators, l.account_len as nat) {
                    None => None,
                    Some((nays, p4)) => match fixed_at(s, p4, l.block_number_len as nat) {
                        None => None,
                        Some((end, p5)) => match list_at(
                            s,
                            p5,
                            l.max_validators,
                            ECDSA_SIGNATURE_LEN as nat,
                        ) {
                            None => None,
                            Some((confirmations, p6)) => match fixed_at(
                                s,
                                p6,
                                l.block_number_len as nat,
                            ) {
                                None => None,
                                Some((created, p7)) => Some(
                                    (
                                        OldVotingSessionView {
                                            voting_session_id: id,
                                            threshold,
                                            ayes,
                                            nays,
                                            end_of_voting_period: end,
                                            confirmations,
                                            created_at_block: created,
                                        },
                                        p7,
                                    ),
                                ),
                            },
                        },
                    },
                },
            },
        },
    }
}

/// The whole of `s` is one current-layout record, and this is it.
pub open spec fn decodes_exactly(s: Seq<u8>, l: Layout, v: VotingSessionView) -> bool {
    voting_session_at(s, 0, l) == Some((v, s.len() as int))
}

/// The whole of `s` is one current-layout record.
pub open spec fn is_current_layout(s: Seq<u8>, l: Layout) -> bool {
    voting_session_at(s, 0, l) matches Some((_, end)) && end == s.len()
}

/// Encoding of a current-layout record.
pub open spec fn voting_session_bytes(v: VotingSessionView) -> Seq<u8> {
    bytes_enc(v.voting_session_id) + le_u32_bytes(v.threshold as int) + list_enc(v.ayes)
        + list_enc(v.nays) + v.end_of_voting_period + v.created_at_block
}

/// The record respects the layout: bounded lengths and fixed widths.
pub open spec fn fits_layout(v: VotingSessionView, l: Layout) -> bool {
    &&& v.voting_session_id.len() <= l.session_id_bound
    &&& v.ayes.len() <= l.max_validators
    &&& v.nays.len() <= l.max_validators
    &&& all_width(v.ayes, l.account_len as nat)
    &&& all_width(v.nays, l.account_len as nat)
    &&& v.end_of_voting_period.len() == l.block_number_len
    &&& v.created_at_block.len() == l.block_number_len
}

/// The current record that a previous-layout record becomes: the same
/// fields, without `confirmations`.
pub open spec fn upgraded(o: OldVotingSessionView) -> VotingSessionView {
    VotingSessionView {
        voting_session_id: o.voting_session_id,
        threshold: o.threshold,
        ayes: o.ayes,
        nays: o.nays,
        end_of_voting_period: o.end_of_voting_period,
        created_at_block: o.created_at_block,
    }
}

/// `v` holds the same fields as `o`, apart from `confirmations`, which `v`
/// does not have.
pub open spec fn same_fields(v: VotingSessionView, o: OldVotingSessionView) -> bool {
    &&& v.voting_session_id == o.voting_session_id
    &&& v.threshold == o.threshold
    &&& v.ayes == o.ayes
    &&& v.nays == o.nays
    &&& v.end_of_voting_period == o.end_of_voting_period
    &&& v.created_at_block == o.created_at_block
}

/// Encoding of a previous-layout record: the current fields in order, with
/// the `confirmations` list between the end of the voting period and the
/// block the session was created at.
pub open spec fn old_voting_session_bytes(o: OldVotingSessionView) -> Seq<u8> {
    bytes_enc(o.voting_session_id) + le_u32_bytes(o.threshold as int) + list_enc(o.ayes)
        + list_enc(o.nays) + o.end_of_voting_period + list_enc(o.confirmations)
        + o.created_at_block
}

/// The previous-layout record respects the layout: bounded lengths, fixed
/// widths, and at most as many signatures as there may be validators.
pub open spec fn fits_old_layout(o: OldVotingSessionView, l: Layout) -> bool {
    &&& o.voting_session_id.len() <= l.session_id_bound
    &&& o.ayes.len() <= l.max_validators
    &&& o.nays.len() <= l.max_validators
    &&& o.confirmations.len() <= l.max_validators
    &&& all_width(o.ayes, l.account_len as nat)
    &&& all_width(o.nays, l.account_len as nat)
    &&& all_width(o.confirmations, ECDSA_SIGNATURE_LEN as nat)
    &&& o.end_of_voting_period.len() == l.block_number_len
    &&& o.created_at_block.len() == l.block_number_len
}

/// Upgrading a previous-layout record keeps every one of its fields but
/// `confirmations`, whatever their contents and lengths.
pub proof fn lemma_upgraded_keeps_fields(o: OldVotingSessionView)
    ensures
        same_fields(upgraded(o), o),
{
}

/// A decoded current-layout record fits the layout, and ends within the input.
pub proof fn lemma_decoded_fits(s: Seq<u8>, pos: int, l: Layout)
    ensures
        voting_session_at(s, pos, l) matches Some((v, e)) ==> fits_layout(v, l) && pos <= e
            <= s.len(),
{
    lemma_bytes_shape(s, pos, l.session_id_bound);
    if let Some((id, p1)) = bytes_at(s, pos, l.session_id_bound) {
        if let Some((t, p2)) = u32_at(s, p1) {
            lemma_list_shape(s, p2, l.max_validators, l.account_len as nat);
            if let Some((ayes, p3)) = list_at(s, p2, l.max_validators, l.account_len as nat) {
                lemma_list_shape(s, p3, l.max_validators, l.account_len as nat);
            }
        }
    }
}

/// A decoded previous-layout record, once upgraded, fits the layout.
pub proof fn lemma_old_decoded_fits(s: Seq<u8>, pos: int, l: Layout)
    ensures
        old_voting_session_at(s, pos, l) matches Some((o, e)) ==> fits_layout(upgraded(o), l)
            && pos <= e <= s.len(),
{
    lemma_bytes_shape(s, pos, l.session_id_bound);
    if let Some((id, p1)) = bytes_at(s, pos, l.session_id_bound) {
        if let Some((t, p2)) = u32_at(s, p1) {
            lemma_list_shape(s, p2, l.max_validators, l.account_len as nat);
            if let Some((ayes, p3)) = list_at(s, p2, l.max_validators, l.account_len as nat) {
                lemma_list_shape(s, p3, l.max_validators, l.account_len as nat);
                if let Some((nays, p4)) = list_at(s, p3, l.max_validators, l.account_len as nat) {
                    if let Some((end, p5)) = fixed_at(s, p4, l.block_number_len as nat) {
                        lemma_list_shape(s, p5, l.max_validators, ECDSA_SIGNATURE_LEN as nat);
                    }
                }
            }
        }
    }
}

/// A list of accounts and what follows it, after any bytes `pre`: the list
/// decodes back to itself and ends where its encoding ends.
proof fn lemma_list_then(pre: Seq<u8>, items: Seq<Seq<u8>>, after: Seq<u8>, l: Layout)
    requires
        items.len() <= l.max_validators,
        all_width(items, l.account_len as nat),
    ensures
        list_at(pre + (list_enc(items) + after), pre.len() as int, l.max_validators, l.account_len as nat)
            == Some((items, (pre.len() + list_enc(items).len()) as int)),
{
    assert(pre + (list_enc(items) + after) =~= pre + list_enc(items) + after);
    lemma_list_roundtrip(pre, items, after, l.max_validators, l.account_len as nat);
}

/// Fixed-width bytes and what follows them, after any bytes `pre`, read back
/// as themselves.
proof fn lemma_fixed_then(pre: Seq<u8>, x: Seq<u8>, after: Seq<u8>)
    ensures
        fixed_at(pre + (x + after), pre.len() as int, x.len()) == Some(
            (x, (pre.len() + x.len()) as int),
        ),
{
    assert(pre + (x + after) =~= pre + x + after);
    lemma_fixed_roundtrip(pre, x, after);
}

/// Encoding a record that fits the layout and decoding the result, whatever
/// follows it, gives the record back and ends right after its encoding.
pub proof fn lemma_voting_session_roundtrip(v: VotingSessionView, l: Layout, tail: Seq<u8>)
    requires
        fits_layout(v, l),
    ensures
        voting_session_at(voting_session_bytes(v) + tail, 0, l) == Some(
            (v, voting_session_bytes(v).len() as int),
        ),
{
    lemma_record_fields(v, l, tail);
}

/// Each field of an encoded record, followed by anything, reads back at its
/// place.
proof fn lemma_record_fields(v: VotingSessionView, l: Layout, tail: Seq<u8>)
    requires
        fits_layout(v, l),
    ensures
        ({
            let s = voting_session_bytes(v) + tail;
            let w = l.account_len as nat;
            let n1 = bytes_enc(v.voting_session_id).len() as int;
            let n2 = n1 + 4;
            let n3 = n2 + list_enc(v.ayes).len();
            let n4 = n3 + list_enc(v.nays).len();
            let n5 = n4 + v.end_of_voting_period.len();
            let n6 = n5 + v.created_at_block.len();
            &&& bytes_at(s, 0, l.session_id_bound) == Some((v.voting_session_id, n1))
            &&& u32_at(s, n1) == Some((v.threshold, n2))
            &&& list_at(s, n2, l.max_validators, w) == Some((v.ayes, n3))
            &&& list_at(s, n3, l.max_validators, w) == Some((v.nays, n4))
            &&& fixed_at(s, n4, l.block_number_len as nat) == Some((v.end_of_voting_period, n5))
            &&& fixed_at(s, n5, l.block_number_len as nat) == Some((v.created_at_block, n6))
            &&& voting_session_bytes(v).len() == n6
        }),
{
    let e1 = bytes_enc(v.voting_session_id);
    let e2 = le_u32_bytes(v.threshold as int);
    let e3 = list_enc(v.ayes);
    let e4 = list_enc(v.nays);
    let e5 = v.end_of_voting_period;
    let e6 = v.created_at_block;
    let s = voting_session_bytes(v) + tail;
    let w = l.account_len as nat;
    let n1 = e1.len() as int;
    let n2 = n1 + 4;
    let n3 = n2 + e3.len();
    let n4 = n3 + e4.len();
    let n5 = n4 + e5.len();
    let n6 = n5 + e6.len();
    assert(e2.len() == 4);
    assert(bytes_at(s, 0, l.session_id_bound) == Some((v.voting_session_id, n1))) by {
        let empty = Seq::<u8>::empty();
        assert(s =~= empty + e1 + (e2 + e3 + e4 + e5 + e6 + tail));
        lemma_bytes_roundtrip(empty, v.voting_session_id, e2 + e3 + e4 + e5 + e6 + tail, l.session_id_bound);
    }
    assert(u32_at(s, n1) == Some((v.threshold, n2))) by {
        assert(s =~= e1 + e2 + (e3 + e4 + e5 + e6 + tail));
        lemma_u32_roundtrip(e1, v.threshold, e3 + e4 + e5 + e6 + tail);
    }
    assert(list_at(s, n2, l.max_validators, w) == Some((v.ayes, n3))) by {
        assert(s =~= (e1 + e2) + (e3 + (e4 + e5 + e6 + tail)));
        lemma_list_then(e1 + e2, v.ayes, e4 + e5 + e6 + tail, l);
    }
    assert(list_at(s, n3, l.max_validators, w) == Some((v.nays, n4))) by {
        assert(s =~= (e1 + e2 + e3) + (e4 + (e5 + e6 + tail)));
        lemma_list_then(e1 + e2 + e3, v.nays, e5 + e6 + tail, l);
    }
    assert(fixed_at(s, n4, l.block_number_len as nat) == Some((e5, n5))) by {
        assert(s =~= (e1 + e2 + e3 + e4) + (e5 + (e6 + tail)));
        lemma_fixed_then(e1 + e2 + e3 + e4, e5, e6 + tail);
    }
    assert(fixed_at(s, n5, l.block_number_len as nat) == Some((e6, n6))) by {
        assert(s =~= (e1 + e2 + e3 + e4 + e5) + (e6 + tail));
        lemma_fixed_then(e1 + e2 + e3 + e4 + e5, e6, tail);
    }
}

/// A list of signatures and what follows it, after any bytes `pre`, reads
/// back as itself.
proof fn lemma_signatures_then(pre: Seq<u8>, items: Seq<Seq<u8>>, after: Seq<u8>, l: Layout)
    requires
        items.len() <= l.max_validators,
        all_width(items, ECDSA_SIGNATURE_LEN as nat),
    ensures
        list_at(pre + (list_enc(items) + after), pre.len() as int, l.max_validators, ECDSA_SIGNATURE_LEN as nat)
            == Some((items, (pre.len() + list_enc(items).len()) as int)),
{
    assert(pre + (list_enc(items) + after) =~= pre + list_enc(items) + after);
    lemma_list_roundtrip(pre, items, after, l.max_validators, ECDSA_SIGNATURE_LEN as nat);
}

/// Each field of an encoded previous-layout record, followed by anything,
/// reads back at its place; the list of signatures takes at least one byte.
proof fn lemma_old_record_fields(o: OldVotingSessionView, l: Layout, tail: Seq<u8>)
    requires
        fits_old_layout(o, l),
    ensures
        ({
            let s = old_voting_session_bytes(o) + tail;
            let w = l.account_len as nat;
            let n1 = bytes_enc(o.voting_session_id).len() as int;
            let n2 = n1 + 4;
            let n3 = n2 + list_enc(o.ayes).len();
            let n4 = n3 + list_enc(o.nays).len();
            let n5 = n4 + o.end_of_voting_period.len();
            let n6 = n5 + list_enc(o.confirmations).len();
            let n7 = n6 + o.created_at_block.len();
            &&& bytes_at(s, 0, l.session_id_bound) == Some((o.voting_session_id, n1))
            &&& u32_at(s, n1) == Some((o.threshold, n2))
            &&& list_at(s, n2, l.max_validators, w) == Some((o.ayes, n3))
            &&& list_at(s, n3, l.max_validators, w) == Some((o.nays, n4))
            &&& fixed_at(s, n4, l.block_number_len as nat) == Some((o.end_of_voting_period, n5))
            &&& list_at(s, n5, l.max_validators, ECDSA_SIGNATURE_LEN as nat) == Some(
                (o.confirmations, n6),
            )
            &&& fixed_at(s, n6, l.block_number_len as nat) == Some((o.created_at_block, n7))
            &&& old_voting_session_bytes(o).len() == n7
            &&& list_enc(o.confirmations).len() >= 1
        }),
{
    let e1 = bytes_enc(o.voting_session_id);
    let e2 = le_u32_bytes(o.threshold as int);
    let e3 = list_enc(o.ayes);
    let e4 = list_enc(o.nays);
    let e5 = o.end_of_voting_period;
    let e6 = list_enc(o.confirmations);
    let e7 = o.created_at_block;
    let s = old_voting_session_bytes(o) + tail;
    let w = l.account_len as nat;
    let n1 = e1.len() as int;
    let n2 = n1 + 4;
    let n3 = n2 + e3.len();
    let n4 = n3 + e4.len();
    let n5 = n4 + e5.len();
    let n6 = n5 + e6.len();
    let n7 = n6 + e7.len();
    assert(e2.len() == 4);
    assert(bytes_at(s, 0, l.session_id_bound) == Some((o.voting_session_id, n1))) by {
        let empty = Seq::<u8>::empty();
        assert(s =~= empty + e1 + (e2 + e3 + e4 + e5 + e6 + e7 + tail));
        lemma_bytes_roundtrip(empty, o.voting_session_id, e2 + e3 + e4 + e5 + e6 + e7 + tail, l.session_id_bound);
    }
    assert(u32_at(s, n1) == Some((o.threshold, n2))) by {
        assert(s =~= e1 + e2 + (e3 + e4 + e5 + e6 + e7 + tail));
        lemma_u32_roundtrip(e1, o.threshold, e3 + e4 + e5 + e6 + e7 + tail);
    }
    assert(list_at(s, n2, l.max_validators, w) == Some((o.ayes, n3))) by {
        assert(s =~= (e1 + e2) + (e3 + (e4 + e5 + e6 + e7 + tail)));
        lemma_list_then(e1 + e2, o.ayes, e4 + e5 + e6 + e7 + tail, l);
    }
    assert(list_at(s, n3, l.max_validators, w) == Some((o.nays, n4))) by {
        assert(s =~= (e1 + e2 + e3) + (e4 + (e5 + e6 + e7 + tail)));
        lemma_list_then(e1 + e2 + e3, o.nays, e5 + e6 + e7 + tail, l);
    }
    assert(fixed_at(s, n4, l.block_number_len as nat) == Some((e5, n5))) by {
        assert(s =~= (e1 + e2 + e3 + e4) + (e5 + (e6 + e7 + tail)));
        lemma_fixed_then(e1 + e2 + e3 + e4, e5, e6 + e7 + tail);
    }
    assert(list_at(s, n5, l.max_validators, ECDSA_SIGNATURE_LEN as nat) == Some(
        (o.confirmations, n6),
    )) by {
        assert(s =~= (e1 + e2 + e3 + e4 + e5) + (e6 + (e7 + tail)));
        lemma_signatures_then(e1 + e2 + e3 + e4 + e5, o.confirmations, e7 + tail, l);
    }
    assert(fixed_at(s, n6, l.block_number_len as nat) == Some((e7, n7))) by {
        assert(s =~= (e1 + e2 + e3 + e4 + e5 + e6) + (e7 + tail));
        lemma_fixed_then(e1 + e2 + e3 + e4 + e5 + e6, e7, tail);
    }
    assert(e6.len() >= 1) by {
        let c = compact_u32_bytes(o.confirmations.len() as u32);
        lemma_compact_u32_roundtrip(o.confirmations.len() as u32, Seq::empty());
        lemma_compact_u32_prefix_len(c + Seq::<u8>::empty());
    }
}

/// Encoding a previous-layout record that fits the layout, whatever the
/// number of its signatures up to the validator bound, and decoding the
/// result in the previous layout, whatever follows it, gives the record back
/// and ends right after its encoding.
pub proof fn lemma_old_voting_session_roundtrip(o: OldVotingSessionView, l: Layout, tail: Seq<u8>)
    requires
        fits_old_layout(o, l),
    ensures
        old_voting_session_at(old_voting_session_bytes(o) + tail, 0, l) == Some(
            (o, old_voting_session_bytes(o).len() as int),
        ),
{
    lemma_old_record_fields(o, l, tail);
}

/// The encoding of a previous-layout record that fits the layout is not, as a
/// whole, a current-layout record: read in the current layout it ends before
/// its last byte.
pub proof fn lemma_old_encoding_is_not_current(o: OldVotingSessionView, l: Layout)
    requires
        fits_old_layout(o, l),
    ensures
        !is_current_layout(old_voting_session_bytes(o), l),
{
    let b = old_voting_session_bytes(o);
    lemma_old_record_fields(o, l, Seq::empty());
    assert(b + Seq::<u8>::empty() =~= b);
}

/// Encoding a record that fits the layout gives bytes that are, as a whole,
/// exactly that record in the current layout.
pub proof fn lemma_encoding_decodes_exactly(v: VotingSessionView, l: Layout)
    requires
        fits_layout(v, l),
    ensures
        decodes_exactly(voting_session_bytes(v), l, v),
        is_current_layout(voting_session_bytes(v), l),
{
    lemma_voting_session_roundtrip(v, l, Seq::empty());
    assert(voting_session_bytes(v) + Seq::<u8>::empty() =~= voting_session_bytes(v));
}

impl VotingSessionData {
    /// Decodes a current-layout record from the front of `raw`; returns it
    /// with the number of bytes it took.
    pub fn decode_prefix(layout: &Layout, raw: &[u8]) -> (r: Option<(VotingSessionData, usize)>)
        ensures
            r is None <==> voting_session_at(raw@, 0, *layout) is None,
            r matches Some((d, e)) ==> voting_session_at(raw@, 0, *layout) == Some((d@, e as int)),
    {
        let (voting_session_id, p1) = match read_bytes(raw, 0, layout.session_id_bound) {
            None => return None,
            Some(x) => x,
        };
        let (threshold, p2) = match read_u32_at(raw, p1) {
            None => return None,
            Some(x) => x,
        };
        let (ayes, p3) = match read_list(raw, p2, layout.max_validators, layout.account_len) {
            None => return None,
            Some(x) => x,
        };
        let (nays, p4) = match read_list(raw, p3, layout.max_validators, layout.account_len) {
            None => return None,
            Some(x) => x,
        };
        let (end_of_voting_period, p5) = match read_fixed(raw, p4, layout.block_number_len) {
            None => return None,
            Some(x) => x,
        };
        let (created_at_block, p6) = match read_fixed(raw, p5, layout.block_number_len) {
            None => return None,
            Some(x) => x,
        };
        let d = VotingSessionData {
            voting_session_id,
            threshold,
            ayes,
            nays,
            end_of_voting_period,
            created_at_block,
        };
        Some((d, p6))
    }

    /// Decodes `raw` as a current-layout record that takes all of its bytes.
    pub fn decode_exact(layout: &Layout, raw: &[u8]) -> (r: Option<VotingSessionData>)
        ensures
            r is Some <==> is_current_layout(raw@, *layout),
            r matches Some(d) ==> decodes_exactly(raw@, *layout, d@),
    {
        match VotingSessionData::decode_prefix(layout, raw) {
            None => None,
            Some((d, used)) => if used == raw.len() {
                Some(d)
            } else {
                None
            },
        }
    }

    /// The record's encoding in the current layout.
    pub fn encode(&self) -> (r: Vec<u8>)
        requires
            self.voting_session_id@.len() <= u32::MAX,
            self.ayes@.len() <= u32::MAX,
            self.nays@.len() <= u32::MAX,
        ensures
            r@ == voting_session_bytes(self@),
    {
        let mut out: Vec<u8> = Vec::new();
        push_bytes(&mut out, &self.voting_session_id);
        push_u32(&mut out, self.threshold);
        push_list(&mut out, &self.ayes);
        push_list(&mut out, &self.nays);
        let ghost mid = out@;
        out.extend_from_slice(self.end_of_voting_period.as_slice());
        assert(out@ =~= mid + self.end_of_voting_period@);
        let ghost mid2 = out@;
        out.extend_from_slice(self.created_at_block.as_slice());
        assert(out@ =~= mid2 + self.created_at_block@);
        assert(out@ =~= voting_session_bytes(self@));
        out
    }
}

impl OldVotingSessionData {
    /// Decodes a previous-layout record from the front of `raw`; bytes after
    /// it are ignored.
    pub fn decode(layout: &Layout, raw: &[u8]) -> (r: Option<OldVotingSessionData>)
        ensures
            r is None <==> old_voting_session_at(raw@, 0, *layout) is None,
            r matches Some(d) ==> old_voting_session_at(raw@, 0, *layout) matches Some((o, _)) && d@ == o,
    {
        let (voting_session_id, p1) = match read_bytes(raw, 0, layout.session_id_bound) {
            None => return None,
            Some(x) => x,
        };
        let (threshold, p2) = match read_u32_at(raw, p1) {
            None => return None,
            Some(x) => x,
        };
        let (ayes, p3) = match read_list(raw, p2, layout.max_validators, layout.account_len) {
            None => return None,
            Some(x) => x,
        };
        let (nays, p4) = match read_list(raw, p3, layout.max_validators, layout.account_len) {
            None => return None,
            Some(x) => x,
        };
        let (end_of_voting_period, p5) = match read_fixed(raw, p4, layout.block_number_len) {
            None => return None,
            Some(x) => x,
        };
        let (confirmations, p6) = match read_list(
            raw,
            p5,
            layout.max_validators,
            ECDSA_SIGNATURE_LEN,
        ) {
            None => return None,
            Some(x) => x,
        };
        let (created_at_block, _p7) = match read_fixed(raw, p6, layout.block_number_len) {
            None => return None,
            Some(x) => x,
        };
        Some(
            OldVotingSessionData {
                voting_session_id,
                threshold,
                ayes,
                nays,
                end_of_voting_period,
                confirmations,
                created_at_block,
            },
        )
    }

    /// The current-layout record with the same fields, `confirmations`
    /// dropped.
    pub fn into_current(self) -> (r: VotingSessionData)
        ensures
            r@ == upgraded(self@),
            r.voting_session_id@ == self.voting_session_id@,
            r.threshold == self.threshold,
            r.ayes@ == self.ayes@,
            r.nays@ == self.nays@,
            r.end_of_voting_period@ == self.end_of_voting_period@,
            r.created_at_block@ == self.created_at_block@,
    {
        VotingSessionData {
            voting_session_id: self.voting_session_id,
            threshold: self.threshold,
            ayes: self.ayes,
            nays: self.nays,
            end_of_voting_period: self.end_of_voting_period,
            created_at_block: self.created_at_block,
        }
    }
}

} // verus!
