//! The wire format of the signals: one byte that tells the kind, then the fields in
//! order, lists with a compact length in front.

use vstd::prelude::*;

use crate::authority::{array_from_slice, AuthorityId};
use crate::log::{ConsensusLog, ScheduledChange, SignalKind};
use crate::wire::{
    compact_bytes, decode_compact, decode_u64, encode_compact_to, encode_u64_to, le_bytes_u64,
    lemma_compact_unambiguous, lemma_concat_parts, lemma_head_is_prefix,
    lemma_le_bytes_u64_injective, lemma_prefix_of_concat, lemma_prefix_split, BlockNumber,
};

verus! {

/// What a scheduled change holds, as plain values.
pub struct ScheduledChangeView<N> {
    pub next_authorities: Seq<AuthorityId>,
    pub delay: N,
}

/// What a signal holds, as plain values.
pub enum ConsensusLogView<N> {
    ScheduledChange(ScheduledChangeView<N>),
    ForcedChange(N, ScheduledChangeView<N>),
    OnDisabled(u64),
    Pause(N),
    Resume(N),
}

impl<N> View for ScheduledChange<N> {
    type V = ScheduledChangeView<N>;

    open spec fn view(&self) -> ScheduledChangeView<N> {
        ScheduledChangeView { next_authorities: self.next_authorities@, delay: self.delay }
    }
}

impl<N> View for ConsensusLog<N> {
    type V = ConsensusLogView<N>;

    open spec fn view(&self) -> ConsensusLogView<N> {
        match *self {
            ConsensusLog::ScheduledChange(change) => ConsensusLogView::ScheduledChange(change@),
            ConsensusLog::ForcedChange(median, change) => ConsensusLogView::ForcedChange(
                median,
                change@,
            ),
            ConsensusLog::OnDisabled(index) => ConsensusLogView::OnDisabled(index),
            ConsensusLog::Pause(delay) => ConsensusLogView::Pause(delay),
            ConsensusLog::Resume(delay) => ConsensusLogView::Resume(delay),
        }
    }
}

/// The keys of a list of identities, one after another.
pub open spec fn ids_bytes(ids: Seq<AuthorityId>) -> Seq<u8>
    decreases ids.len(),
{
    if ids.len() == 0 {
        Seq::empty()
    } else {
        ids_bytes(ids.drop_last()) + ids.last()@
    }
}

/// A list of identities on the wire: its length in compact form, then the keys.
pub open spec fn authorities_bytes(ids: Seq<AuthorityId>) -> Seq<u8> {
    compact_bytes(ids.len() as u32) + ids_bytes(ids)
}

/// Whether a list is short enough for its length to be written.
pub open spec fn list_fits(ids: Seq<AuthorityId>) -> bool {
    ids.len() <= u32::MAX
}

impl<N: BlockNumber> ScheduledChangeView<N> {
    /// Whether the change can be written: its list must be short enough.
    pub open spec fn encodable(self) -> bool {
        list_fits(self.next_authorities)
    }

    /// The change on the wire: the list, then the delay.
    pub open spec fn wire(self) -> Seq<u8> {
        authorities_bytes(self.next_authorities) + self.delay.wire()
    }
}

impl<N: BlockNumber> ConsensusLogView<N> {
    /// The kind of this signal.
    pub open spec fn kind_of(self) -> SignalKind {
        match self {
            ConsensusLogView::ScheduledChange(_) => SignalKind::ScheduledChange,
            ConsensusLogView::ForcedChange(_, _) => SignalKind::ForcedChange,
            ConsensusLogView::OnDisabled(_) => SignalKind::OnDisabled,
            ConsensusLogView::Pause(_) => SignalKind::Pause,
            ConsensusLogView::Resume(_) => SignalKind::Resume,
        }
    }

    /// Whether the signal can be written: a list in it must be short enough.
    pub open spec fn encodable(self) -> bool {
        match self {
            ConsensusLogView::ScheduledChange(change) => change.encodable(),
            ConsensusLogView::ForcedChange(_, change) => change.encodable(),
            _ => true,
        }
    }

    /// The fields of the signal on the wire, in order.
    pub open spec fn fields(self) -> Seq<u8> {
        match self {
            ConsensusLogView::ScheduledChange(change) => change.wire(),
            ConsensusLogView::ForcedChange(median, change) => median.wire() + change.wire(),
            ConsensusLogView::OnDisabled(index) => le_bytes_u64(index),
            ConsensusLogView::Pause(delay) => delay.wire(),
            ConsensusLogView::Resume(delay) => delay.wire(),
        }
    }

    /// The signal on the wire: the byte of its kind, then its fields.
    pub open spec fn wire(self) -> Seq<u8> {
        seq![self.kind_of().tag()] + self.fields()
    }
}

/// Every key takes 32 bytes.
pub proof fn lemma_ids_bytes_len(ids: Seq<AuthorityId>)
    ensures
        ids_bytes(ids).len() == 32 * ids.len(),
    decreases ids.len(),
{
    if ids.len() > 0 {
        lemma_ids_bytes_len(ids.drop_last());
    }
}

/// Adding a key to a list adds its bytes to the end.
pub proof fn lemma_ids_bytes_push(ids: Seq<AuthorityId>, id: AuthorityId)
    ensures
        ids_bytes(ids.push(id)) == ids_bytes(ids) + id@,
{
    assert(ids.push(id).drop_last() =~= ids);
}

/// Lists of one length with the same bytes are the same list.
pub proof fn lemma_ids_bytes_injective(a: Seq<AuthorityId>, b: Seq<AuthorityId>)
    requires
        a.len() == b.len(),
        ids_bytes(a) == ids_bytes(b),
    ensures
        a == b,
    decreases a.len(),
{
    if a.len() > 0 {
        lemma_ids_bytes_len(a.drop_last());
        lemma_ids_bytes_len(b.drop_last());
        lemma_concat_parts(
            ids_bytes(a.drop_last()),
            a.last()@,
            ids_bytes(b.drop_last()),
            b.last()@,
        );
        AuthorityId::lemma_view_injective(a.last(), b.last());
        lemma_ids_bytes_injective(a.drop_last(), b.drop_last());
        assert(a =~= a.drop_last().push(a.last()));
        assert(b =~= b.drop_last().push(b.last()));
    }
    assert(a =~= b);
}

/// No list on the wire is the start of another: equal streams begin with equal lists.
pub proof fn lemma_authorities_unambiguous(
    a: Seq<AuthorityId>,
    ra: Seq<u8>,
    b: Seq<AuthorityId>,
    rb: Seq<u8>,
)
    requires
        list_fits(a),
        list_fits(b),
        authorities_bytes(a) + ra == authorities_bytes(b) + rb,
    ensures
        a == b,
        ra == rb,
{
    let (na, nb) = (a.len() as u32, b.len() as u32);
    assert(authorities_bytes(a) + ra =~= compact_bytes(na) + (ids_bytes(a) + ra));
    assert(authorities_bytes(b) + rb =~= compact_bytes(nb) + (ids_bytes(b) + rb));
    lemma_compact_unambiguous(na, ids_bytes(a) + ra, nb, ids_bytes(b) + rb);
    lemma_ids_bytes_len(a);
    lemma_ids_bytes_len(b);
    lemma_concat_parts(ids_bytes(a), ra, ids_bytes(b), rb);
    lemma_ids_bytes_injective(a, b);
}

/// No change on the wire is the start of another: equal streams begin with equal changes.
pub proof fn lemma_change_unambiguous<N: BlockNumber>(
    a: ScheduledChangeView<N>,
    ra: Seq<u8>,
    b: ScheduledChangeView<N>,
    rb: Seq<u8>,
)
    requires
        a.encodable(),
        b.encodable(),
        a.wire() + ra == b.wire() + rb,
    ensures
        a == b,
        ra == rb,
{
    let (ta, tb) = (a.delay.wire() + ra, b.delay.wire() + rb);
    assert(a.wire() + ra =~= authorities_bytes(a.next_authorities) + ta);
    assert(b.wire() + rb =~= authorities_bytes(b.next_authorities) + tb);
    lemma_authorities_unambiguous(a.next_authorities, ta, b.next_authorities, tb);
    N::lemma_wire_unambiguous(a.delay, ra, b.delay, rb);
}

/// No signal on the wire is the start of another: equal streams begin with equal
/// signals. Reading a signal back from its bytes can therefore give only that signal.
pub proof fn lemma_log_unambiguous<N: BlockNumber>(
    a: ConsensusLogView<N>,
    ra: Seq<u8>,
    b: ConsensusLogView<N>,
    rb: Seq<u8>,
)
    requires
        a.encodable(),
        b.encodable(),
        a.wire() + ra == b.wire() + rb,
    ensures
        a == b,
        ra == rb,
{
    let (ta, tb) = (seq![a.kind_of().tag()], seq![b.kind_of().tag()]);
    assert(a.wire() + ra =~= ta + (a.fields() + ra));
    assert(b.wire() + rb =~= tb + (b.fields() + rb));
    lemma_concat_parts(ta, a.fields() + ra, tb, b.fields() + rb);
    assert(ta[0] == tb[0]);
    SignalKind::lemma_tag_injective(a.kind_of(), b.kind_of());
    match (a, b) {
        (ConsensusLogView::ScheduledChange(ca), ConsensusLogView::ScheduledChange(cb)) => {
            lemma_change_unambiguous(ca, ra, cb, rb);
        },
        (ConsensusLogView::ForcedChange(ma, ca), ConsensusLogView::ForcedChange(mb, cb)) => {
            assert(a.fields() + ra =~= ma.wire() + (ca.wire() + ra));
            assert(b.fields() + rb =~= mb.wire() + (cb.wire() + rb));
            N::lemma_wire_unambiguous(ma, ca.wire() + ra, mb, cb.wire() + rb);
            lemma_change_unambiguous(ca, ra, cb, rb);
        },
        (ConsensusLogView::OnDisabled(ia), ConsensusLogView::OnDisabled(ib)) => {
            lemma_concat_parts(le_bytes_u64(ia), ra, le_bytes_u64(ib), rb);
            lemma_le_bytes_u64_injective(ia, ib);
        },
        (ConsensusLogView::Pause(da), ConsensusLogView::Pause(db)) => {
            N::lemma_wire_unambiguous(da, ra, db, rb);
        },
        (ConsensusLogView::Resume(da), ConsensusLogView::Resume(db)) => {
            N::lemma_wire_unambiguous(da, ra, db, rb);
        },
        _ => {},
    }
}

/// What reading a signal from the start of `input` may give: a signal and the bytes
/// behind it, when the input starts with the bytes of that signal; nothing, when the
/// input starts with the bytes of no signal.
pub open spec fn is_reading<N: BlockNumber>(
    input: Seq<u8>,
    outcome: Option<(ConsensusLogView<N>, Seq<u8>)>,
) -> bool {
    match outcome {
        Some((log, rest)) => log.encodable() && input == log.wire() + rest,
        None => forall|log: ConsensusLogView<N>|
            log.encodable() ==> !(#[trigger] log.wire()).is_prefix_of(input),
    }
}

/// Reading what was written gives back the signal that was written, and leaves exactly
/// the bytes that came after it.
pub proof fn lemma_read_of_written<N: BlockNumber>(
    log: ConsensusLogView<N>,
    rest: Seq<u8>,
    outcome: Option<(ConsensusLogView<N>, Seq<u8>)>,
)
    requires
        log.encodable(),
        is_reading(log.wire() + rest, outcome),
    ensures
        outcome == Some((log, rest)),
{
    match outcome {
        Some((other, after)) => {
            lemma_log_unambiguous(other, after, log, rest);
        },
        None => {
            lemma_head_is_prefix(log.wire(), rest);
        },
    }
}

/// Writing what was read gives back the bytes that were read: the byte of the kind and
/// the fields, exactly as they stood at the start of the input.
pub proof fn lemma_written_of_read<N: BlockNumber>(
    input: Seq<u8>,
    log: ConsensusLogView<N>,
    rest: Seq<u8>,
)
    requires
        is_reading(input, Some((log, rest))),
    ensures
        log.wire().is_prefix_of(input),
        log.wire() == input.subrange(0, input.len() - rest.len()),
        log.wire()[0] == input[0],
        1 <= input[0] <= 5,
{
    lemma_head_is_prefix(log.wire(), rest);
    assert(log.wire() =~= input.subrange(0, input.len() - rest.len()));
    SignalKind::lemma_tag_injective(log.kind_of(), log.kind_of());
}

/// Reading gives at most one answer.
pub proof fn lemma_reading_unique<N: BlockNumber>(
    input: Seq<u8>,
    first: Option<(ConsensusLogView<N>, Seq<u8>)>,
    second: Option<(ConsensusLogView<N>, Seq<u8>)>,
)
    requires
        is_reading(input, first),
        is_reading(input, second),
    ensures
        first == second,
{
    match (first, second) {
        (Some((a, ra)), Some((b, rb))) => {
            lemma_log_unambiguous(a, ra, b, rb);
        },
        (Some((a, ra)), None) => {
            lemma_head_is_prefix(a.wire(), ra);
        },
        (None, Some((b, rb))) => {
            lemma_head_is_prefix(b.wire(), rb);
        },
        (None, None) => {},
    }
}

/// Appends a list of identities to `out`: its compact length, then the keys.
pub fn encode_authorities_to(ids: &Vec<AuthorityId>, out: &mut Vec<u8>)
    requires
        list_fits(ids@),
    ensures
        final(out)@ == old(out)@ + authorities_bytes(ids@),
{
    encode_compact_to(ids.len() as u32, out);
    let ghost start = out@;
    let mut i: usize = 0;
    while i < ids.len()
        invariant
            i <= ids@.len(),
            out@ == start + ids_bytes(ids@.take(i as int)),
        decreases ids@.len() - i,
    {
        out.extend_from_slice(ids[i].0.as_slice());
        proof {
            lemma_ids_bytes_push(ids@.take(i as int), ids@[i as int]);
            assert(ids@.take(i + 1) =~= ids@.take(i as int).push(ids@[i as int]));
            assert(out@ =~= start + ids_bytes(ids@.take(i + 1)));
        }
        i += 1;
    }
    assert(ids@.take(i as int) =~= ids@);
    assert(out@ =~= old(out)@ + authorities_bytes(ids@));
}

/// Reads a list of identities from the start of `input` and hands back what follows it;
/// `None` exactly when the input starts with no list.
pub fn decode_authorities(input: &[u8]) -> (r: Option<(Vec<AuthorityId>, &[u8])>)
    ensures
        match r {
            Some((ids, rest)) => list_fits(ids@) && input@ == authorities_bytes(ids@) + rest@,
            None => forall|ids: Seq<AuthorityId>|
                list_fits(ids) ==> !(#[trigger] authorities_bytes(ids)).is_prefix_of(input@),
        },
{
    let (n, body) = match decode_compact(input) {
        Some(found) => found,
        None => {
            assert forall|ids: Seq<AuthorityId>| list_fits(ids) implies !(
            #[trigger] authorities_bytes(ids)).is_prefix_of(input@) by {
                if authorities_bytes(ids).is_prefix_of(input@) {
                    lemma_prefix_of_concat(compact_bytes(ids.len() as u32), ids_bytes(ids), input@);
                }
            }
            return None;
        },
    };
    let mut ids: Vec<AuthorityId> = Vec::new();
    let mut rest = body;
    let mut i: u32 = 0;
    while i < n
        invariant
            i <= n,
            ids@.len() == i,
            input@ == compact_bytes(n) + body@,
            body@ == ids_bytes(ids@) + rest@,
        decreases n - i,
    {
        if rest.len() < 32 {
            assert forall|other: Seq<AuthorityId>| list_fits(other) implies !(
            #[trigger] authorities_bytes(other)).is_prefix_of(input@) by {
                if authorities_bytes(other).is_prefix_of(input@) {
                    lemma_prefix_split(authorities_bytes(other), input@);
                    let tail = input@.skip(authorities_bytes(other).len() as int);
                    assert(authorities_bytes(other) + tail =~= compact_bytes(other.len() as u32) + (
                    ids_bytes(other) + tail));
                    lemma_compact_unambiguous(
                        other.len() as u32,
                        ids_bytes(other) + tail,
                        n,
                        body@,
                    );
                    lemma_ids_bytes_len(other);
                    lemma_ids_bytes_len(ids@);
                    assert((ids_bytes(other) + tail).len() == (ids_bytes(ids@) + rest@).len());
                }
            }
            return None;
        }
        let (key, tail) = rest.split_at(32);
        let id = AuthorityId(array_from_slice(key));
        proof {
            lemma_ids_bytes_push(ids@, id);
            assert(rest@ =~= key@ + tail@);
            assert(body@ =~= ids_bytes(ids@.push(id)) + tail@);
        }
        ids.push(id);
        rest = tail;
        i += 1;
    }
    assert(input@ =~= authorities_bytes(ids@) + rest@);
    Some((ids, rest))
}

impl<N: BlockNumber> ScheduledChange<N> {
    /// Whether the change can be written: its list must be short enough.
    pub fn is_encodable(&self) -> (fits: bool)
        ensures
            fits == self@.encodable(),
    {
        self.next_authorities.len() <= 0xffff_ffff
    }

    /// Appends the change to `out`: the list, then the delay.
    pub fn encode_to(&self, out: &mut Vec<u8>)
        requires
            self@.encodable(),
        ensures
            final(out)@ == old(out)@ + self@.wire(),
    {
        encode_authorities_to(&self.next_authorities, out);
        self.delay.encode_to(out);
        assert(out@ =~= old(out)@ + self@.wire());
    }

    /// Reads a change from the start of `input` and hands back what follows it; `None`
    /// exactly when the input starts with no change.
    pub fn decode(input: &[u8]) -> (r: Option<(ScheduledChange<N>, &[u8])>)
        ensures
            match r {
                Some((change, rest)) => change@.encodable() && input@ == change@.wire() + rest@,
                None => forall|change: ScheduledChangeView<N>|
                    change.encodable() ==> !(#[trigger] change.wire()).is_prefix_of(input@),
            },
    {
        let (ids, body) = match decode_authorities(input) {
            Some(found) => found,
            None => {
                assert forall|change: ScheduledChangeView<N>| change.encodable() implies !(
                #[trigger] change.wire()).is_prefix_of(input@) by {
                    if change.wire().is_prefix_of(input@) {
                        lemma_prefix_of_concat(
                            authorities_bytes(change.next_authorities),
                            change.delay.wire(),
                            input@,
                        );
                    }
                }
                return None;
            },
        };
        match N::decode(body) {
            Some((delay, rest)) => {
                let change = ScheduledChange { next_authorities: ids, delay };
                assert(input@ =~= change@.wire() + rest@);
                Some((change, rest))
            },
            None => {
                assert forall|change: ScheduledChangeView<N>| change.encodable() implies !(
                #[trigger] change.wire()).is_prefix_of(input@) by {
                    if change.wire().is_prefix_of(input@) {
                        lemma_prefix_split(change.wire(), input@);
                        let tail = input@.skip(change.wire().len() as int);
                        assert(change.wire() + tail =~= authorities_bytes(change.next_authorities)
                            + (change.delay.wire() + tail));
                        lemma_authorities_unambiguous(
                            change.next_authorities,
                            change.delay.wire() + tail,
                            ids@,
                            body@,
                        );
                        lemma_head_is_prefix(change.delay.wire(), tail);
                    }
                }
                None
            },
        }
    }
}

impl<N: BlockNumber> ConsensusLog<N> {
    /// Whether the signal can be written: a list in it must be short enough.
    pub fn is_encodable(&self) -> (fits: bool)
        ensures
            fits == self@.encodable(),
    {
        match self {
            ConsensusLog::ScheduledChange(change) => change.is_encodable(),
            ConsensusLog::ForcedChange(_, change) => change.is_encodable(),
            _ => true,
        }
    }

    /// Appends the signal to `out`: the byte of its kind, then its fields.
    pub fn encode_to(&self, out: &mut Vec<u8>)
        requires
            self@.encodable(),
        ensures
            final(out)@ == old(out)@ + self@.wire(),
    {
        out.push(self.kind().discriminant());
        match self {
            ConsensusLog::ScheduledChange(change) => {
                change.encode_to(out);
            },
            ConsensusLog::ForcedChange(median, change) => {
                median.encode_to(out);
                change.encode_to(out);
            },
            ConsensusLog::OnDisabled(index) => {
                encode_u64_to(*index, out);
            },
            ConsensusLog::Pause(delay) => {
                delay.encode_to(out);
            },
            ConsensusLog::Resume(delay) => {
                delay.encode_to(out);
            },
        }
        assert(out@ =~= old(out)@ + self@.wire());
    }

    /// The signal on the wire.
    pub fn encode(&self) -> (bytes: Vec<u8>)
        requires
            self@.encodable(),
        ensures
            bytes@ == self@.wire(),
    {
        let mut bytes: Vec<u8> = Vec::new();
        self.encode_to(&mut bytes);
        assert(bytes@ =~= self@.wire());
        bytes
    }

    /// Reads a signal from the start of `input` and hands back what follows it; `None`
    /// exactly when the input starts with no signal.
    pub fn decode(input: &[u8]) -> (r: Option<(ConsensusLog<N>, &[u8])>)
        ensures
            is_reading(
                input@,
                match r {
                    Some((log, rest)) => Some((log@, rest@)),
                    None => None,
                },
            ),
    {
        if input.len() == 0 {
            return None;
        }
        let (head, body) = input.split_at(1);
        let tag = head[0];
        assert(input@ =~= seq![tag] + body@);
        let kind = match SignalKind::from_discriminant(tag) {
            Some(kind) => kind,
            None => {
                assert forall|log: ConsensusLogView<N>| log.encodable() implies !(
                #[trigger] log.wire()).is_prefix_of(input@) by {
                    if log.wire().is_prefix_of(input@) {
                        assert(log.wire()[0] == input@[0]);
                        SignalKind::lemma_tag_injective(log.kind_of(), log.kind_of());
                    }
                }
                return None;
            },
        };
        let found = match kind {
            SignalKind::ScheduledChange => match ScheduledChange::<N>::decode(body) {
                Some((change, rest)) => Some((ConsensusLog::ScheduledChange(change), rest)),
                None => None,
            },
            SignalKind::ForcedChange => match N::decode(body) {
                Some((median, after)) => match ScheduledChange::<N>::decode(after) {
                    Some((change, rest)) => {
                        assert(body@ =~= (median.wire() + change@.wire()) + rest@);
                        Some((ConsensusLog::ForcedChange(median, change), rest))
                    },
                    None => {
                        assert forall|log: ConsensusLogView<N>|
                            log.encodable() && log.kind_of() == kind implies !(
                        #[trigger] log.fields()).is_prefix_of(body@) by {
                            if let ConsensusLogView::ForcedChange(m, c) = log {
                                if log.fields().is_prefix_of(body@) {
                                    lemma_prefix_split(log.fields(), body@);
                                    let tail = body@.skip(log.fields().len() as int);
                                    assert(log.fields() + tail =~= m.wire() + (c.wire() + tail));
                                    N::lemma_wire_unambiguous(m, c.wire() + tail, median, after@);
                                    lemma_head_is_prefix(c.wire(), tail);
                                }
                            }
                        }
                        None
                    },
                },
                None => {
                    assert forall|log: ConsensusLogView<N>|
                        log.encodable() && log.kind_of() == kind implies !(
                    #[trigger] log.fields()).is_prefix_of(body@) by {
                        if let ConsensusLogView::ForcedChange(m, c) = log {
                            if log.fields().is_prefix_of(body@) {
                                lemma_prefix_of_concat(m.wire(), c.wire(), body@);
                            }
                        }
                    }
                    None
                },
            },
            SignalKind::OnDisabled => match decode_u64(body) {
                Some((index, rest)) => Some((ConsensusLog::OnDisabled(index), rest)),
                None => None,
            },
            SignalKind::Pause => match N::decode(body) {
                Some((delay, rest)) => Some((ConsensusLog::Pause(delay), rest)),
                None => None,
            },
            SignalKind::Resume => match N::decode(body) {
                Some((delay, rest)) => Some((ConsensusLog::Resume(delay), rest)),
                None => None,
            },
        };
        proof {
            match &found {
                Some((log, rest)) => {
                    assert(input@ =~= log@.wire() + rest@);
                },
                None => {
                    assert forall|log: ConsensusLogView<N>| log.encodable() implies !(
                    #[trigger] log.wire()).is_prefix_of(input@) by {
                        if log.wire().is_prefix_of(input@) {
                            assert(log.wire()[0] == input@[0]);
                            SignalKind::lemma_tag_injective(log.kind_of(), kind);
                            lemma_prefix_split(log.wire(), input@);
                            let tail = input@.skip(log.wire().len() as int);
                            assert(log.wire() + tail =~= seq![tag] + (log.fields() + tail));
                            lemma_concat_parts(seq![tag], log.fields() + tail, seq![tag], body@);
                            lemma_head_is_prefix(log.fields(), tail);
                            assert(log.fields().is_prefix_of(body@));
                        }
                    }
                },
            }
        }
        found
    }
}

} // verus!
