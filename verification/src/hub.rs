use vstd::prelude::*;

use crate::ids::PaneId;
use crate::osc::{OUTPUT_LIMIT, append_output, last_bytes};
use crate::protocol::{AppSnapshot, ServerEvent};
use crate::seq_facts::{first_index, lemma_first_index_bounds};

verus! {

/// The output kept for one pane.
pub struct PaneBuffer {
    pub pane_id: PaneId,
    pub bytes: Vec<u8>,
}

/// The daemon's output hub: the recent output of each pane, for replay to a client that
/// attaches, and the one client that live events go to.
pub struct OutputHub {
    buffers: Vec<PaneBuffer>,
    client: Option<u64>,
    next_client_id: u64,
}

/// The kept output as pairs of a pane and its bytes.
pub open spec fn buffer_views(buffers: Seq<PaneBuffer>) -> Seq<(PaneId, Seq<u8>)> {
    buffers.map_values(|b: PaneBuffer| (b.pane_id, b.bytes@))
}

/// The panes of the kept output, in order.
pub open spec fn buffer_panes(buffers: Seq<(PaneId, Seq<u8>)>) -> Seq<PaneId> {
    buffers.map_values(|b: (PaneId, Seq<u8>)| b.0)
}

/// The kept output after a pane produced `bytes`: its buffer keeps the last `OUTPUT_LIMIT` bytes
/// of what it held and the new bytes; a pane without a buffer gets one at the end.
pub open spec fn appended(buffers: Seq<(PaneId, Seq<u8>)>, pane_id: PaneId, bytes: Seq<u8>) -> Seq<
    (PaneId, Seq<u8>),
> {
    let i = first_index(buffer_panes(buffers), pane_id);
    if i < buffers.len() {
        buffers.update(
            i as int,
            (pane_id, last_bytes(buffers[i as int].1 + bytes, OUTPUT_LIMIT as nat)),
        )
    } else {
        buffers.push((pane_id, last_bytes(bytes, OUTPUT_LIMIT as nat)))
    }
}

/// The kept output without the buffer of a pane.
pub open spec fn without_pane(buffers: Seq<(PaneId, Seq<u8>)>, pane_id: PaneId) -> Seq<
    (PaneId, Seq<u8>),
> {
    let i = first_index(buffer_panes(buffers), pane_id);
    if i < buffers.len() {
        buffers.remove(i as int)
    } else {
        buffers
    }
}

/// The buffers replayed to an attaching client: those that hold output, in order.
pub open spec fn replayed(buffers: Seq<(PaneId, Seq<u8>)>) -> Seq<(PaneId, Seq<u8>)>
    decreases buffers.len(),
{
    if buffers.len() == 0 {
        seq![]
    } else {
        let earlier = replayed(buffers.drop_last());
        if buffers.last().1.len() > 0 {
            earlier.push(buffers.last())
        } else {
            earlier
        }
    }
}

/// The pane and bytes of an output event.
pub open spec fn output_of(event: ServerEvent) -> Option<(PaneId, Seq<u8>)> {
    match event {
        ServerEvent::TerminalOutput { pane_id, data } => Some((pane_id, data@)),
        _ => None,
    }
}

impl OutputHub {
    /// The output kept for each pane.
    pub closed spec fn kept(&self) -> Seq<(PaneId, Seq<u8>)> {
        buffer_views(self.buffers@)
    }

    /// The client that live events go to.
    pub closed spec fn spec_subscriber(&self) -> Option<u64> {
        self.client
    }

    /// The identifier of the last client that attached.
    pub closed spec fn last_client_id(&self) -> u64 {
        self.next_client_id
    }

    /// Each buffer keeps at most `OUTPUT_LIMIT` bytes, and no pane has two buffers.
    pub closed spec fn well_formed(&self) -> bool {
        &&& forall|i: int| 0 <= i < self.buffers@.len() ==> #[trigger] self.buffers@[i].bytes@.len() <= OUTPUT_LIMIT
        &&& buffer_panes(buffer_views(self.buffers@)).no_duplicates()
    }

    /// A hub with no output and no client.
    pub fn new() -> (hub: Self)
        ensures
            hub.well_formed(),
            hub.kept() == Seq::<(PaneId, Seq<u8>)>::empty(),
            hub.spec_subscriber() is None,
            hub.last_client_id() == 0,
    {
        let hub = OutputHub { buffers: Vec::new(), client: None, next_client_id: 0 };
        proof {
            assert(hub.kept() =~= Seq::<(PaneId, Seq<u8>)>::empty());
            assert(buffer_panes(buffer_views(hub.buffers@)) =~= Seq::<PaneId>::empty());
        }
        hub
    }

    /// The client that live events go to, if one is attached.
    pub fn subscriber(&self) -> (client: Option<u64>)
        ensures
            client == self.spec_subscriber(),
    {
        self.client
    }

    /// Keeps a pane's new output and gives back the event that carries it to the client.
    pub fn append(&mut self, pane_id: PaneId, bytes: &[u8]) -> (event: ServerEvent)
        requires
            old(self).well_formed(),
        ensures
            final(self).well_formed(),
            final(self).kept() == appended(old(self).kept(), pane_id, bytes@),
            final(self).spec_subscriber() == old(self).spec_subscriber(),
            final(self).last_client_id() == old(self).last_client_id(),
            output_of(event) == Some((pane_id, bytes@)),
    {
        let ghost before = self.buffers@;
        let ghost panes = buffer_panes(buffer_views(before));
        proof {
            lemma_first_index_bounds(panes, pane_id);
        }
        let mut index: usize = 0;
        while index < self.buffers.len() && self.buffers[index].pane_id != pane_id
            invariant
                self.buffers@ == before,
                panes == buffer_panes(buffer_views(before)),
                index <= before.len(),
                forall|j: int| 0 <= j < index ==> panes[j] != pane_id,
                first_index(panes, pane_id) <= panes.len(),
                first_index(panes, pane_id) < panes.len() ==> panes[first_index(panes, pane_id) as int]
                    == pane_id,
                forall|j: int| 0 <= j < first_index(panes, pane_id) ==> panes[j] != pane_id,
            decreases before.len() - index,
        {
            proof {
                assert(panes[index as int] == self.buffers@[index as int].pane_id);
            }
            index += 1;
        }
        proof {
            assert(panes.len() == before.len());
            if index < before.len() {
                assert(panes[index as int] == self.buffers@[index as int].pane_id);
            }
        }
        if index < self.buffers.len() && self.buffers[index].pane_id == pane_id {
            proof {
                let f = first_index(panes, pane_id);
                if f < index {
                    assert(panes[f as int] == pane_id);
                }
                assert(panes[index as int] == pane_id);
                assert(f == index);
            }
            let mut entry = self.buffers.remove(index);
            append_output(&mut entry.bytes, bytes);
            self.buffers.insert(index, entry);
            proof {
                assert(buffer_views(self.buffers@) =~= appended(buffer_views(before), pane_id, bytes@));
                assert(buffer_panes(buffer_views(self.buffers@)) =~= panes);
            }
        } else {
            proof {
                assert(first_index(panes, pane_id) == panes.len());
            }
            let mut fresh: Vec<u8> = Vec::new();
            append_output(&mut fresh, bytes);
            proof {
                assert(Seq::<u8>::empty() + bytes@ =~= bytes@);
            }
            self.buffers.push(PaneBuffer { pane_id, bytes: fresh });
            proof {
                assert(buffer_views(self.buffers@) =~= appended(buffer_views(before), pane_id, bytes@));
                assert(buffer_panes(buffer_views(self.buffers@)) =~= panes.push(pane_id));
                assert(!panes.contains(pane_id));
                assert forall|i: int, j: int|
                    0 <= i < panes.len() + 1 && 0 <= j < panes.len() + 1 && i != j implies panes.push(
                        pane_id,
                    )[i] != panes.push(pane_id)[j] by {
                    if i == panes.len() {
                        assert(panes[j] != pane_id);
                    } else if j == panes.len() {
                        assert(panes[i] != pane_id);
                    }
                }
            }
        }
        let mut data: Vec<u8> = Vec::new();
        let mut k: usize = 0;
        while k < bytes.len()
            invariant
                k <= bytes@.len(),
                data@ == bytes@.take(k as int),
            decreases bytes@.len() - k,
        {
            data.push(bytes[k]);
            proof {
                assert(bytes@.take(k + 1) =~= bytes@.take(k as int).push(bytes@[k as int]));
            }
            k += 1;
        }
        proof {
            assert(bytes@.take(k as int) =~= bytes@);
        }
        ServerEvent::TerminalOutput { pane_id, data }
    }

    /// Drops the output kept for a pane that closed.
    pub fn remove_buffer(&mut self, pane_id: PaneId)
        requires
            old(self).well_formed(),
        ensures
            final(self).well_formed(),
            final(self).kept() == without_pane(old(self).kept(), pane_id),
            final(self).spec_subscriber() == old(self).spec_subscriber(),
            final(self).last_client_id() == old(self).last_client_id(),
    {
        let ghost before = self.buffers@;
        let ghost panes = buffer_panes(buffer_views(before));
        proof {
            lemma_first_index_bounds(panes, pane_id);
        }
        let mut index: usize = 0;
        while index < self.buffers.len() && self.buffers[index].pane_id != pane_id
            invariant
                self.buffers@ == before,
                panes == buffer_panes(buffer_views(before)),
                index <= before.len(),
                forall|j: int| 0 <= j < index ==> panes[j] != pane_id,
                first_index(panes, pane_id) <= panes.len(),
                first_index(panes, pane_id) < panes.len() ==> panes[first_index(panes, pane_id) as int]
                    == pane_id,
                forall|j: int| 0 <= j < first_index(panes, pane_id) ==> panes[j] != pane_id,
            decreases before.len() - index,
        {
            proof {
                assert(panes[index as int] == self.buffers@[index as int].pane_id);
            }
            index += 1;
        }
        proof {
            assert(panes.len() == before.len());
            if index < before.len() {
                assert(panes[index as int] == self.buffers@[index as int].pane_id);
            }
        }
        if index < self.buffers.len() {
            proof {
                let f = first_index(panes, pane_id);
                if f < index {
                    assert(panes[f as int] == pane_id);
                }
                assert(f == index);
            }
            self.buffers.remove(index);
            proof {
                assert(buffer_views(self.buffers@) =~= without_pane(buffer_views(before), pane_id));
                assert(buffer_panes(buffer_views(self.buffers@)) =~= panes.remove(index as int));
                assert forall|i: int, j: int|
                    0 <= i < panes.len() - 1 && 0 <= j < panes.len() - 1 && i != j implies panes.remove(
                        index as int,
                    )[i] != panes.remove(index as int)[j] by {
                    let a = if i < index { i } else { i + 1 };
                    let b = if j < index { j } else { j + 1 };
                    assert(panes.remove(index as int)[i] == panes[a]);
                    assert(panes.remove(index as int)[j] == panes[b]);
                }
            }
        } else {
            proof {
                assert(first_index(panes, pane_id) == panes.len());
                assert(buffer_views(self.buffers@) =~= without_pane(buffer_views(before), pane_id));
            }
        }
    }

    /// Prepares a client's attachment: draws the next client identifier and gives back the
    /// events it is sent first, the snapshot and then the kept output of each pane that has any.
    pub fn replay_for_attach(&mut self, snapshot: AppSnapshot) -> (attachment: (u64, Vec<ServerEvent>))
        ensures
            attachment.0 == (if old(self).last_client_id() == u64::MAX {
                0
            } else {
                old(self).last_client_id() + 1
            }),
            final(self).last_client_id() == attachment.0,
            final(self).kept() == old(self).kept(),
            final(self).spec_subscriber() == old(self).spec_subscriber(),
            final(self).well_formed() == old(self).well_formed(),
            attachment.1@.len() == replayed(old(self).kept()).len() + 1,
            attachment.1@[0] == (ServerEvent::Attached { snapshot }),
            forall|k: int|
                0 <= k < replayed(old(self).kept()).len() ==> output_of(#[trigger] attachment.1@[k + 1])
                    == Some(replayed(old(self).kept())[k]),
    {
        self.next_client_id = self.next_client_id.wrapping_add(1);
        let client_id = self.next_client_id;
        let mut events: Vec<ServerEvent> = Vec::new();
        events.push(ServerEvent::Attached { snapshot });
        let ghost all = buffer_views(self.buffers@);
        let mut index: usize = 0;
        while index < self.buffers.len()
            invariant
                all == buffer_views(self.buffers@),
                index <= self.buffers@.len(),
                events@.len() == replayed(all.take(index as int)).len() + 1,
                events@[0] == (ServerEvent::Attached { snapshot }),
                forall|k: int|
                    0 <= k < replayed(all.take(index as int)).len() ==> output_of(
                        #[trigger] events@[k + 1],
                    ) == Some(replayed(all.take(index as int))[k]),
            decreases self.buffers@.len() - index,
        {
            proof {
                assert(all.take(index + 1).drop_last() =~= all.take(index as int));
                assert(all.take(index + 1).last() == all[index as int]);
            }
            let buffer = &self.buffers[index];
            if buffer.bytes.len() > 0 {
                let mut data: Vec<u8> = Vec::new();
                let mut k: usize = 0;
                while k < buffer.bytes.len()
                    invariant
                        k <= buffer.bytes@.len(),
                        data@ == buffer.bytes@.take(k as int),
                    decreases buffer.bytes@.len() - k,
                {
                    data.push(buffer.bytes[k]);
                    proof {
                        assert(buffer.bytes@.take(k + 1) =~= buffer.bytes@.take(k as int).push(
                            buffer.bytes@[k as int],
                        ));
                    }
                    k += 1;
                }
                proof {
                    assert(buffer.bytes@.take(k as int) =~= buffer.bytes@);
                }
                events.push(ServerEvent::TerminalOutput { pane_id: buffer.pane_id, data });
            }
            index += 1;
        }
        proof {
            assert(all.take(index as int) =~= all);
        }
        (client_id, events)
    }

    /// Makes `client_id` the client that live events go to.
    pub fn activate(&mut self, client_id: u64)
        ensures
            final(self).spec_subscriber() == Some(client_id),
            final(self).kept() == old(self).kept(),
            final(self).last_client_id() == old(self).last_client_id(),
            final(self).well_formed() == old(self).well_formed(),
    {
        self.client = Some(client_id);
    }

    /// Detaches `client_id`, if it is the client that live events go to; another client stays.
    pub fn detach(&mut self, client_id: u64)
        ensures
            final(self).spec_subscriber() == (if old(self).spec_subscriber() == Some(client_id) {
                None
            } else {
                old(self).spec_subscriber()
            }),
            final(self).kept() == old(self).kept(),
            final(self).last_client_id() == old(self).last_client_id(),
            final(self).well_formed() == old(self).well_formed(),
    {
        if self.client == Some(client_id) {
            self.client = None;
        }
    }
}

proof fn lemma_last_bytes_twice(earlier: Seq<u8>, later: Seq<u8>, limit: nat)
    ensures
        last_bytes(last_bytes(earlier, limit) + later, limit) == last_bytes(earlier + later, limit),
{
    let kept = last_bytes(earlier, limit);
    let all = earlier + later;
    let part = kept + later;
    if earlier.len() > limit {
        assert(earlier.skip(earlier.len() - limit) + later =~= all.skip(earlier.len() - limit));
        assert(part =~= all.skip(earlier.len() - limit));
        if part.len() > limit {
            assert(part.skip(part.len() - limit) =~= all.skip(all.len() - limit));
        } else {
            assert(part.len() == limit + later.len());
            assert(later.len() == 0);
            assert(part =~= all.skip(all.len() - limit));
        }
    } else {
        assert(part =~= all);
    }
}

/// A pane's buffer keeps the last `OUTPUT_LIMIT` bytes of all its output: appending two chunks
/// one after the other leaves what appending them joined would.
pub proof fn appending_keeps_the_last_bytes_of_all_output(
    kept: Seq<(PaneId, Seq<u8>)>,
    pane_id: PaneId,
    earlier: Seq<u8>,
    later: Seq<u8>,
)
    ensures
        appended(appended(kept, pane_id, earlier), pane_id, later) == appended(
            kept,
            pane_id,
            earlier + later,
        ),
{
    let panes = buffer_panes(kept);
    let once = appended(kept, pane_id, earlier);
    lemma_first_index_bounds(panes, pane_id);
    let i = first_index(panes, pane_id);
    if i < kept.len() {
        assert(buffer_panes(once) =~= panes);
        lemma_last_bytes_twice(kept[i as int].1 + earlier, later, OUTPUT_LIMIT as nat);
        assert(kept[i as int].1 + earlier + later =~= kept[i as int].1 + (earlier + later));
        assert(once[i as int].1 == last_bytes(kept[i as int].1 + earlier, OUTPUT_LIMIT as nat));
        assert(appended(once, pane_id, later) =~= appended(kept, pane_id, earlier + later));
    } else {
        let grown = buffer_panes(once);
        assert(grown =~= panes.push(pane_id));
        lemma_first_index_bounds(grown, pane_id);
        assert(grown[kept.len() as int] == pane_id);
        assert(!panes.contains(pane_id));
        assert(first_index(grown, pane_id) == kept.len()) by {
            let f = first_index(grown, pane_id);
            if f < kept.len() {
                assert(grown[f as int] == panes[f as int]);
            }
        }
        lemma_last_bytes_twice(earlier, later, OUTPUT_LIMIT as nat);
        assert(Seq::<u8>::empty() + earlier =~= earlier);
        assert(appended(once, pane_id, later) =~= appended(kept, pane_id, earlier + later));
    }
}

} // verus!
