//! The signals by which a block changes, pauses or resumes the authority set, and the
//! rule that picks the one to honor when a block carries several.

use vstd::prelude::*;

use crate::authority::{AuthorityIndex, AuthorityList};

verus! {

/// A pending replacement of the authority list.
#[derive(Clone, Debug, PartialEq, Eq)]
pub struct ScheduledChange<N> {
    /// The authorities after the change.
    pub next_authorities: AuthorityList,
    /// The number of blocks to wait before the change takes effect.
    pub delay: N,
}

/// A signal that a block carries for the authority set.
#[derive(Clone, Debug, PartialEq, Eq)]
pub enum ConsensusLog<N> {
    /// Schedule a change, to take effect after `delay` finalized blocks.
    ScheduledChange(ScheduledChange<N>),
    /// Force a change, to take effect after `delay` imported blocks; the first field is
    /// the reference block number of the forced-change policy.
    ForcedChange(N, ScheduledChange<N>),
    /// The authority at this index is disabled until the next change takes effect.
    OnDisabled(AuthorityIndex),
    /// Stop voting once the block at this height is finalized.
    Pause(N),
    /// Resume voting once the block at this height is authored.
    Resume(N),
}

/// The five kinds of signal.
#[derive(Clone, Copy, Debug, PartialEq, Eq, Structural)]
pub enum SignalKind {
    ScheduledChange,
    ForcedChange,
    OnDisabled,
    Pause,
    Resume,
}

impl SignalKind {
    /// The byte that announces a signal of this kind on the wire.
    pub open spec fn tag(self) -> u8 {
        match self {
            SignalKind::ScheduledChange => 1,
            SignalKind::ForcedChange => 2,
            SignalKind::OnDisabled => 3,
            SignalKind::Pause => 4,
            SignalKind::Resume => 5,
        }
    }

    /// The byte that announces a signal of this kind on the wire.
    pub fn discriminant(self) -> (byte: u8)
        ensures
            byte == self.tag(),
    {
        match self {
            SignalKind::ScheduledChange => 1,
            SignalKind::ForcedChange => 2,
            SignalKind::OnDisabled => 3,
            SignalKind::Pause => 4,
            SignalKind::Resume => 5,
        }
    }

    /// The kind that `byte` announces, if it announces one.
    pub fn from_discriminant(byte: u8) -> (kind: Option<SignalKind>)
        ensures
            kind matches Some(k) ==> k.tag() == byte,
            kind.is_none() <==> !(1 <= byte <= 5),
    {
        match byte {
            1 => Some(SignalKind::ScheduledChange),
            2 => Some(SignalKind::ForcedChange),
            3 => Some(SignalKind::OnDisabled),
            4 => Some(SignalKind::Pause),
            5 => Some(SignalKind::Resume),
            _ => None,
        }
    }

    /// Distinct kinds have distinct bytes, all between 1 and 5.
    pub proof fn lemma_tag_injective(a: SignalKind, b: SignalKind)
        ensures
            1 <= a.tag() <= 5,
            a.tag() == b.tag() ==> a == b,
    {
    }
}

impl<N> ConsensusLog<N> {
    /// The kind of this signal.
    pub open spec fn kind_of(self) -> SignalKind {
        match self {
            ConsensusLog::ScheduledChange(_) => SignalKind::ScheduledChange,
            ConsensusLog::ForcedChange(_, _) => SignalKind::ForcedChange,
            ConsensusLog::OnDisabled(_) => SignalKind::OnDisabled,
            ConsensusLog::Pause(_) => SignalKind::Pause,
            ConsensusLog::Resume(_) => SignalKind::Resume,
        }
    }

    /// The kind of this signal.
    pub fn kind(&self) -> (kind: SignalKind)
        ensures
            kind == self.kind_of(),
    {
        match self {
            ConsensusLog::ScheduledChange(_) => SignalKind::ScheduledChange,
            ConsensusLog::ForcedChange(_, _) => SignalKind::ForcedChange,
            ConsensusLog::OnDisabled(_) => SignalKind::OnDisabled,
            ConsensusLog::Pause(_) => SignalKind::Pause,
            ConsensusLog::Resume(_) => SignalKind::Resume,
        }
    }

    /// The scheduled change that this entry carries, if it is one.
    pub fn try_into_change(self) -> (change: Option<ScheduledChange<N>>)
        ensures
            change == match self {
                ConsensusLog::ScheduledChange(c) => Some(c),
                _ => None,
            },
    {
        match self {
            ConsensusLog::ScheduledChange(change) => Some(change),
            _ => None,
        }
    }

    /// The forced change that this entry carries, if it is one.
    pub fn try_into_forced_change(self) -> (forced: Option<(N, ScheduledChange<N>)>)
        ensures
            forced == match self {
                ConsensusLog::ForcedChange(median, c) => Some((median, c)),
                _ => None,
            },
    {
        match self {
            ConsensusLog::ForcedChange(median, change) => Some((median, change)),
            _ => None,
        }
    }

    /// The pause signal that this entry carries, if it is one.
    pub fn try_into_pause(self) -> (delay: Option<N>)
        ensures
            delay == match self {
                ConsensusLog::Pause(d) => Some(d),
                _ => None,
            },
    {
        match self {
            ConsensusLog::Pause(delay) => Some(delay),
            _ => None,
        }
    }

    /// The resume signal that this entry carries, if it is one.
    pub fn try_into_resume(self) -> (delay: Option<N>)
        ensures
            delay == match self {
                ConsensusLog::Resume(d) => Some(d),
                _ => None,
            },
    {
        match self {
            ConsensusLog::Resume(delay) => Some(delay),
            _ => None,
        }
    }
}

/// The entry of the given kind that a block honors: the earliest one in the order of
/// the block, found by a fold over its entries that looks at nothing else.
pub open spec fn earliest<N>(entries: Seq<ConsensusLog<N>>, kind: SignalKind) -> Option<
    ConsensusLog<N>,
>
    decreases entries.len(),
{
    if entries.len() == 0 {
        None
    } else if entries[0].kind_of() == kind {
        Some(entries[0])
    } else {
        earliest(entries.drop_first(), kind)
    }
}

/// The change that a block asks for: its earliest forced change if it has one, else its
/// earliest scheduled change.
pub open spec fn selected_change<N>(entries: Seq<ConsensusLog<N>>) -> Option<ConsensusLog<N>> {
    match earliest(entries, SignalKind::ForcedChange) {
        Some(forced) => Some(forced),
        None => earliest(entries, SignalKind::ScheduledChange),
    }
}

/// Whether the entry at `i` is of the given kind and no entry before it is.
pub open spec fn is_first_of_kind<N>(entries: Seq<ConsensusLog<N>>, kind: SignalKind, i: int) -> bool {
    &&& 0 <= i < entries.len()
    &&& entries[i].kind_of() == kind
    &&& forall|j: int| 0 <= j < i ==> (#[trigger] entries[j]).kind_of() != kind
}

/// Whether some entry is of the given kind.
pub open spec fn has_kind<N>(entries: Seq<ConsensusLog<N>>, kind: SignalKind) -> bool {
    exists|i: int| 0 <= i < entries.len() && (#[trigger] entries[i]).kind_of() == kind
}

/// Skipping entries of other kinds does not change which entry is honored.
pub proof fn lemma_earliest_skip<N>(entries: Seq<ConsensusLog<N>>, kind: SignalKind, n: int)
    requires
        0 <= n <= entries.len(),
        forall|j: int| 0 <= j < n ==> (#[trigger] entries[j]).kind_of() != kind,
    ensures
        earliest(entries, kind) == earliest(entries.skip(n), kind),
    decreases n,
{
    if n == 0 {
        assert(entries.skip(0) =~= entries);
    } else {
        let rest = entries.drop_first();
        assert(entries[0].kind_of() != kind);
        assert forall|j: int| 0 <= j < n - 1 implies (#[trigger] rest[j]).kind_of() != kind by {
            assert(rest[j] == entries[j + 1]);
        }
        lemma_earliest_skip(rest, kind, n - 1);
        assert(rest.skip(n - 1) =~= entries.skip(n));
    }
}

/// The honored entry is the first of its kind, and there is none exactly when the block
/// has no entry of that kind.
pub proof fn lemma_earliest_is_first<N>(entries: Seq<ConsensusLog<N>>, kind: SignalKind)
    ensures
        earliest(entries, kind).is_none() <==> !has_kind(entries, kind),
        forall|i: int|
            is_first_of_kind(entries, kind, i) ==> earliest(entries, kind) == Some(entries[i]),
        earliest(entries, kind) matches Some(e) ==> e.kind_of() == kind && exists|i: int|
            is_first_of_kind(entries, kind, i) && entries[i] == e,
    decreases entries.len(),
{
    if entries.len() == 0 {
    } else if entries[0].kind_of() == kind {
        assert(is_first_of_kind(entries, kind, 0));
        assert forall|i: int| is_first_of_kind(entries, kind, i) implies i == 0 by {
            if i > 0 {
                assert(entries[0].kind_of() != kind);
            }
        }
    } else {
        let rest = entries.drop_first();
        lemma_earliest_is_first(rest, kind);
        assert forall|i: int| is_first_of_kind(entries, kind, i) implies earliest(entries, kind)
            == Some(entries[i]) by {
            assert(i > 0);
            assert forall|j: int| 0 <= j < i - 1 implies (#[trigger] rest[j]).kind_of()
                != kind by {
                assert(rest[j] == entries[j + 1]);
            }
            assert(is_first_of_kind(rest, kind, i - 1));
        }
        if has_kind(entries, kind) {
            let i = choose|i: int| 0 <= i < entries.len() && (#[trigger] entries[i]).kind_of() == kind;
            assert(rest[i - 1] == entries[i]);
            assert(has_kind(rest, kind));
        }
        if has_kind(rest, kind) {
            let i = choose|i: int| 0 <= i < rest.len() && (#[trigger] rest[i]).kind_of() == kind;
            assert(entries[i + 1] == rest[i]);
            assert(has_kind(entries, kind));
        }
        if let Some(e) = earliest(entries, kind) {
            let i = choose|i: int| is_first_of_kind(rest, kind, i) && rest[i] == e;
            assert forall|j: int| 0 <= j < i + 1 implies (#[trigger] entries[j]).kind_of()
                != kind by {
                if j > 0 {
                    assert(entries[j] == rest[j - 1]);
                }
            }
            assert(is_first_of_kind(entries, kind, i + 1) && entries[i + 1] == e);
        }
    }
}

/// Entries that come after the honored one do not matter: appending entries to a block
/// that has an entry of the kind leaves the honored entry as it was.
pub proof fn lemma_later_entries_ignored<N>(
    entries: Seq<ConsensusLog<N>>,
    later: Seq<ConsensusLog<N>>,
    kind: SignalKind,
)
    requires
        has_kind(entries, kind),
    ensures
        earliest(entries + later, kind) == earliest(entries, kind),
{
    lemma_earliest_is_first(entries, kind);
    let e = earliest(entries, kind).unwrap();
    let i = choose|i: int| is_first_of_kind(entries, kind, i) && entries[i] == e;
    let all = entries + later;
    assert forall|j: int| 0 <= j < i implies (#[trigger] all[j]).kind_of() != kind by {
        assert(all[j] == entries[j]);
    }
    assert(all[i] == entries[i]);
    assert(is_first_of_kind(all, kind, i));
    lemma_earliest_is_first(all, kind);
}

/// A forced change takes precedence: in a block that has one, the selected change is the
/// earliest forced change, whatever scheduled changes the block has and wherever they
/// stand.
pub proof fn lemma_forced_takes_precedence<N>(entries: Seq<ConsensusLog<N>>)
    requires
        has_kind(entries, SignalKind::ForcedChange),
    ensures
        selected_change(entries) == earliest(entries, SignalKind::ForcedChange),
        selected_change(entries) matches Some(e) && e.kind_of() == SignalKind::ForcedChange,
{
    lemma_earliest_is_first(entries, SignalKind::ForcedChange);
}

/// Without a forced change the selected change is the earliest scheduled change, and a
/// block with neither selects nothing.
pub proof fn lemma_scheduled_without_forced<N>(entries: Seq<ConsensusLog<N>>)
    requires
        !has_kind(entries, SignalKind::ForcedChange),
    ensures
        selected_change(entries) == earliest(entries, SignalKind::ScheduledChange),
        selected_change(entries).is_none() <==> !has_kind(entries, SignalKind::ScheduledChange),
{
    lemma_earliest_is_first(entries, SignalKind::ForcedChange);
    lemma_earliest_is_first(entries, SignalKind::ScheduledChange);
}

/// Finds the entry of the given kind that the block honors: the earliest one.
pub fn earliest_of_kind<N>(entries: &[ConsensusLog<N>], kind: SignalKind) -> (found: Option<
    &ConsensusLog<N>,
>)
    ensures
        match found {
            Some(entry) => earliest(entries@, kind) == Some(*entry),
            None => earliest(entries@, kind).is_none(),
        },
{
    let mut i: usize = 0;
    while i < entries.len()
        invariant
            i <= entries@.len(),
            forall|j: int| 0 <= j < i ==> (#[trigger] entries@[j]).kind_of() != kind,
        decreases entries@.len() - i,
    {
        if entries[i].kind() == kind {
            proof {
                lemma_earliest_skip(entries@, kind, i as int);
                assert(entries@.skip(i as int)[0] == entries@[i as int]);
            }
            return Some(&entries[i]);
        }
        i += 1;
    }
    proof {
        lemma_earliest_skip(entries@, kind, entries@.len() as int);
    }
    None
}

/// Picks the change that a block asks for: a forced change takes precedence over any
/// scheduled change, and of several changes of one kind the earliest is taken.
pub fn select_change<N>(entries: &[ConsensusLog<N>]) -> (found: Option<&ConsensusLog<N>>)
    ensures
        match found {
            Some(entry) => selected_change(entries@) == Some(*entry),
            None => selected_change(entries@).is_none(),
        },
{
    match earliest_of_kind(entries, SignalKind::ForcedChange) {
        Some(forced) => Some(forced),
        None => earliest_of_kind(entries, SignalKind::ScheduledChange),
    }
}

} // verus!
