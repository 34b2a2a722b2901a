use vstd::prelude::*;
use crate::data_types::{ChunkCells, Point};
use crate::net::{
    NetChunk, NetChunkRequest, NetChunkRequestList, NetDeRegisterRequest, NetDiff, NetDiffList,
    NetPayload,
};
use crate::registry::{deregistered, registered, subscribers, ChunkChangeRegistrations};
use crate::spatial::{chunk_id, chunk_id_spec};
use crate::storage::{
    chunk_at, lemma_with_chunk_reads_same, stored_after_relative_write, with_chunk, Operations, Storage,
};

verus! {

/// Client id of the connection whose changes are the truth of the volume.
pub const AUTHORITY_ID: i32 = 0;

/// Whether `client_id` is the authority.
pub fn is_authority(client_id: i32) -> (r: bool)
    ensures
        r == (client_id == AUTHORITY_ID),
{
    client_id == AUTHORITY_ID
}

/// The kind of payload that a message's type tag announces.
#[derive(Clone, Copy, Debug, PartialEq, Eq, Structural)]
pub enum PayloadKind {
    Diff,
    DiffList,
    ChunkRequest,
    ChunkRequestList,
    UnregisterChunk,
    ClaimAuthority,
    Unknown,
}

/// The kind announced by type tag `label`.
pub open spec fn kind_of(label: Seq<char>) -> PayloadKind {
    if label == "diff"@ {
        PayloadKind::Diff
    } else if label == "diffList"@ {
        PayloadKind::DiffList
    } else if label == "chunkRequest"@ {
        PayloadKind::ChunkRequest
    } else if label == "chunkRequestList"@ {
        PayloadKind::ChunkRequestList
    } else if label == "unregisterChunk"@ {
        PayloadKind::UnregisterChunk
    } else if label == "claimAuthority"@ {
        PayloadKind::ClaimAuthority
    } else {
        PayloadKind::Unknown
    }
}

/// The kind of payload that type tag `label` announces; the payload is then
/// decoded with the schema of that kind.
pub fn payload_kind(label: &String) -> (r: PayloadKind)
    ensures
        r == kind_of(label@),
{
    if *label == "diff".to_owned() {
        PayloadKind::Diff
    } else if *label == "diffList".to_owned() {
        PayloadKind::DiffList
    } else if *label == "chunkRequest".to_owned() {
        PayloadKind::ChunkRequest
    } else if *label == "chunkRequestList".to_owned() {
        PayloadKind::ChunkRequestList
    } else if *label == "unregisterChunk".to_owned() {
        PayloadKind::UnregisterChunk
    } else if *label == "claimAuthority".to_owned() {
        PayloadKind::ClaimAuthority
    } else {
        PayloadKind::Unknown
    }
}

/// A message after its payload has been decoded by the schema of its kind.
pub enum Request {
    Diff(NetDiff),
    DiffList(NetDiffList),
    ChunkRequest(NetChunkRequest),
    ChunkRequestList(NetChunkRequestList),
    UnregisterChunk(NetDeRegisterRequest),
    ClaimAuthority,
    Unknown,
    /// The payload did not decode by the schema of its kind.
    Malformed,
}

/// What a message sent to a client carries.
pub enum OutBody {
    /// The payload of the message being answered, passed on as it came.
    Raw(String),
    /// A chunk, to be encoded for the wire.
    Chunk(NetChunk),
}

/// A message for client `target`, in answer to client `sender`.
pub struct Outgoing {
    pub target: i32,
    pub sender: i32,
    pub payload_type: String,
    pub body: OutBody,
}

/// Why a message was refused.
#[derive(Clone, Copy, Debug, PartialEq, Eq, Structural)]
pub enum DispatchError {
    /// The payload did not decode; the message was dropped.
    Malformed,
    /// The message asks for something this server does not do.
    Unsupported,
}

/// `o` passes `payload` from `sender` on to `target`, unchanged.
pub open spec fn is_forward(o: Outgoing, target: i32, sender: i32, payload: NetPayload) -> bool {
    &&& o.target == target
    &&& o.sender == sender
    &&& o.payload_type@ == payload.payload_type@
    &&& o.body matches OutBody::Raw(d) && d@ == payload.data@
}

/// The clients that the messages `out` go to, in order.
pub open spec fn targets(out: Seq<Outgoing>) -> Seq<i32> {
    out.map_values(|o: Outgoing| o.target)
}

/// `out` passes `payload` from `sender` on to each client of `clients`
/// exactly once, and to nobody else.
pub open spec fn forwards_to(out: Seq<Outgoing>, clients: Set<i32>, sender: i32, payload: NetPayload) -> bool {
    &&& forall|i: int| 0 <= i < out.len() ==> is_forward(#[trigger] out[i], out[i].target, sender, payload)
    &&& targets(out).to_set() == clients
    &&& targets(out).no_duplicates()
}

/// `o` answers `client`'s request `req` (tagged `label`) with `cells`.
pub open spec fn is_chunk_reply(
    o: Outgoing,
    client: i32,
    label: Seq<char>,
    req: NetChunkRequest,
    cells: ChunkCells,
) -> bool {
    &&& o.target == client
    &&& o.sender == client
    &&& o.payload_type@ == label
    &&& o.body matches OutBody::Chunk(c) && c.x == req.x && c.y == req.y && c.z == req.z
        && c.density@ == cells.density && c.material@ == cells.material
}

/// The messages of `groups`, one group after another.
pub open spec fn concat(groups: Seq<Seq<Outgoing>>) -> Seq<Outgoing>
    decreases groups.len(),
{
    if groups.len() == 0 {
        Seq::empty()
    } else {
        concat(groups.drop_last()) + groups.last()
    }
}

/// The point that diff `d` writes.
pub open spec fn diff_point(d: NetDiff) -> Point {
    Point { density: d.density, material: d.material }
}

/// `chunks` after diff `d`.
pub open spec fn stored_after_diff(chunks: Map<u32, ChunkCells>, d: NetDiff) -> Map<u32, ChunkCells> {
    stored_after_relative_write(chunks, d.x, d.y, d.z, d.chunk_id, diff_point(d))
}

/// `chunks` after the diffs of `diffs`, first to last.
pub open spec fn stored_after_diffs(chunks: Map<u32, ChunkCells>, diffs: Seq<NetDiff>) -> Map<
    u32,
    ChunkCells,
>
    decreases diffs.len(),
{
    if diffs.len() == 0 {
        chunks
    } else {
        stored_after_diff(stored_after_diffs(chunks, diffs.drop_last()), diffs.last())
    }
}

/// The registrations after `client` asks for each chunk of `reqs`.
pub open spec fn registered_for_requests(
    regs: Map<u32, Map<i32, bool>>,
    is_authority: bool,
    client: i32,
    reqs: Seq<NetChunkRequest>,
) -> Map<u32, Map<i32, bool>>
    decreases reqs.len(),
{
    if reqs.len() == 0 {
        regs
    } else {
        let r = reqs.last();
        registered(
            registered_for_requests(regs, is_authority, client, reqs.drop_last()),
            is_authority,
            client,
            chunk_id_spec(r.x, r.y, r.z),
        )
    }
}

/// `r` accepts the message and sends nothing.
pub open spec fn sends_nothing(r: Result<Vec<Outgoing>, DispatchError>) -> bool {
    r matches Ok(out) && out@.len() == 0
}

/// `chunks` with each chunk that `reqs` asks for present.
pub open spec fn with_requested_chunks(chunks: Map<u32, ChunkCells>, reqs: Seq<NetChunkRequest>) -> Map<
    u32,
    ChunkCells,
>
    decreases reqs.len(),
{
    if reqs.len() == 0 {
        chunks
    } else {
        let r = reqs.last();
        with_chunk(with_requested_chunks(chunks, reqs.drop_last()), chunk_id_spec(r.x, r.y, r.z))
    }
}

/// `b` holds the same volume and registrations as `a`.
pub open spec fn same_state(a: ServerContext, b: ServerContext) -> bool {
    &&& b.volume_storage@ == a.volume_storage@
    &&& b.change_registrations@ == a.change_registrations@
}

/// A client registered for a chunk hears of a change to that chunk exactly
/// once: messages that forward a change to the chunk's subscribers hold one
/// message for that client, and it carries the change as sent.
pub proof fn lemma_registered_client_notified_once(
    regs: Map<u32, Map<i32, bool>>,
    is_authority: bool,
    client: i32,
    chunk: u32,
    sender: i32,
    payload: NetPayload,
    out: Seq<Outgoing>,
)
    requires
        forwards_to(out, subscribers(registered(regs, is_authority, client, chunk), chunk), sender, payload),
    ensures
        exists|i: int| 0 <= i < out.len() && is_forward(#[trigger] out[i], client, sender, payload),
        forall|i: int, j: int|
            0 <= i < out.len() && 0 <= j < out.len() && #[trigger] out[i].target == client
                && #[trigger] out[j].target == client ==> i == j,
{
    let t = targets(out);
    assert(subscribers(registered(regs, is_authority, client, chunk), chunk).contains(client));
    assert(t.to_set().contains(client));
    let i = t.index_of(client);
    assert(out[i].target == t[i]);
    assert forall|i: int, j: int|
        0 <= i < out.len() && 0 <= j < out.len() && #[trigger] out[i].target == client
            && #[trigger] out[j].target == client implies i == j by {
        assert(t[i] == out[i].target && t[j] == out[j].target);
    }
}

/// Once a client has left a chunk, a change to that chunk is not sent to it.
pub proof fn lemma_deregistered_client_not_notified(
    regs: Map<u32, Map<i32, bool>>,
    is_authority: bool,
    client: i32,
    chunk: u32,
    sender: i32,
    payload: NetPayload,
    out: Seq<Outgoing>,
)
    requires
        forwards_to(
            out,
            subscribers(deregistered(registered(regs, is_authority, client, chunk), client, chunk), chunk),
            sender,
            payload,
        ),
    ensures
        forall|i: int| 0 <= i < out.len() ==> #[trigger] out[i].target != client,
{
    let t = targets(out);
    assert(!subscribers(deregistered(registered(regs, is_authority, client, chunk), client, chunk), chunk).contains(client));
    assert forall|i: int| 0 <= i < out.len() implies #[trigger] out[i].target != client by {
        assert(t[i] == out[i].target);
        assert(t.to_set().contains(t[i]));
    }
}

/// The state the dispatcher owns: the volume and who listens to which chunk.
pub struct ServerContext {
    pub change_registrations: ChunkChangeRegistrations,
    pub volume_storage: Storage,
}

impl ServerContext {
    /// The store keeps its invariant.
    pub open spec fn wf(&self) -> bool {
        self.volume_storage.wf()
    }

    /// An empty volume with no registrations.
    pub fn new() -> (r: ServerContext)
        ensures
            r.wf(),
            r.volume_storage@ == Map::<u32, ChunkCells>::empty(),
            r.change_registrations@ == Map::<u32, Map<i32, bool>>::empty(),
    {
        ServerContext {
            change_registrations: ChunkChangeRegistrations::new(),
            volume_storage: Storage::new(),
        }
    }

    /// Applies diff `d` and passes `payload` on to every client registered
    /// for the diff's chunk.
    fn apply_and_forward(&mut self, sender: i32, payload: &NetPayload, d: NetDiff) -> (out: Vec<
        Outgoing,
    >)
        requires
            old(self).wf(),
        ensures
            final(self).wf(),
            final(self).volume_storage@ == stored_after_diff(old(self).volume_storage@, d),
            final(self).change_registrations@ == old(self).change_registrations@,
            forwards_to(out@, subscribers(old(self).change_registrations@, d.chunk_id), sender, *payload),
    {
        self.volume_storage.set_relative(
            d.x,
            d.y,
            d.z,
            d.chunk_id,
            Point { density: d.density, material: d.material },
        );
        let clients = self.change_registrations.subscribers_of(d.chunk_id);
        let mut out: Vec<Outgoing> = Vec::new();
        for i in 0..clients.len()
            invariant
                out@.len() == i,
                targets(out@) == clients@.take(i as int),
                forall|j: int| 0 <= j < out@.len() ==> is_forward(#[trigger] out@[j], out@[j].target, sender, *payload),
        {
            let copy = payload.copy();
            let ghost before = out@;
            out.push(Outgoing {
                target: clients[i],
                sender,
                payload_type: copy.payload_type,
                body: OutBody::Raw(copy.data),
            });
            assert(targets(out@) =~= targets(before).push(clients@[i as int]));
            assert(targets(out@) =~= clients@.take(i + 1));
        }
        assert(targets(out@) =~= clients@);
        out
    }

    /// Makes sure chunk `req` exists, answers `client`'s request for it with
    /// its contents and registers the client for the chunk's changes.
    fn serve_chunk(&mut self, client: i32, has_authority: bool, label: &String, req: NetChunkRequest) -> (o: Outgoing)
        requires
            old(self).wf(),
        ensures
            final(self).wf(),
            final(self).volume_storage@ == with_chunk(
                old(self).volume_storage@,
                chunk_id_spec(req.x, req.y, req.z),
            ),
            final(self).change_registrations@ == registered(
                old(self).change_registrations@,
                has_authority,
                client,
                chunk_id_spec(req.x, req.y, req.z),
            ),
            is_chunk_reply(o, client, label@, req, chunk_at(old(self).volume_storage@, req.x, req.y, req.z)),
    {
        let chunk = NetChunk::from_chunk(self.volume_storage.get_chunk(req.x, req.y, req.z), req.x, req.y, req.z);
        self.volume_storage.ensure_chunk(req.x, req.y, req.z);
        let id = chunk_id(req.x, req.y, req.z);
        self.change_registrations.register_for_chunk_changes(has_authority, client, id);
        Outgoing { target: client, sender: client, payload_type: label.clone(), body: OutBody::Chunk(chunk) }
    }

    /// Handles one message from `client_id`, whose decoded payload is
    /// `request` and whose envelope is `payload`; returns the messages to
    /// send. Diffs count only from the authority; a payload that did not
    /// decode is refused and changes nothing.
    pub fn handle_request(
        &mut self,
        client_id: i32,
        has_authority: bool,
        payload: &NetPayload,
        request: Request,
    ) -> (r: Result<Vec<Outgoing>, DispatchError>)
        requires
            old(self).wf(),
        ensures
            final(self).wf(),
            match request {
                Request::Diff(d) => if has_authority {
                    &&& final(self).volume_storage@ == stored_after_diff(old(self).volume_storage@, d)
                    &&& final(self).change_registrations@ == old(self).change_registrations@
                    &&& r matches Ok(out) && forwards_to(
                        out@,
                        subscribers(old(self).change_registrations@, d.chunk_id),
                        client_id,
                        *payload,
                    )
                } else {
                    same_state(*old(self), *final(self)) && sends_nothing(r)
                },
                Request::DiffList(l) => if has_authority {
                    &&& final(self).volume_storage@ == stored_after_diffs(old(self).volume_storage@, l.list@)
                    &&& final(self).change_registrations@ == old(self).change_registrations@
                    &&& r matches Ok(out) && exists|groups: Seq<Seq<Outgoing>>| {
                        &&& groups.len() == l.list@.len()
                        &&& out@ == concat(groups)
                        &&& forall|j: int| 0 <= j < groups.len() ==> forwards_to(
                            #[trigger] groups[j],
                            subscribers(old(self).change_registrations@, l.list@[j].chunk_id),
                            client_id,
                            *payload,
                        )
                    }
                } else {
                    same_state(*old(self), *final(self)) && sends_nothing(r)
                },
                Request::ChunkRequest(q) => {
                    &&& final(self).volume_storage@ == with_chunk(
                        old(self).volume_storage@,
                        chunk_id_spec(q.x, q.y, q.z),
                    )
                    &&& final(self).change_registrations@ == registered(
                        old(self).change_registrations@,
                        has_authority,
                        client_id,
                        chunk_id_spec(q.x, q.y, q.z),
                    )
                    &&& r matches Ok(out) && out@.len() == 1 && is_chunk_reply(
                        out@[0],
                        client_id,
                        payload.payload_type@,
                        q,
                        chunk_at(old(self).volume_storage@, q.x, q.y, q.z),
                    )
                },
                Request::ChunkRequestList(l) => {
                    &&& final(self).volume_storage@ == with_requested_chunks(old(self).volume_storage@, l.list@)
                    &&& final(self).change_registrations@ == registered_for_requests(
                        old(self).change_registrations@,
                        has_authority,
                        client_id,
                        l.list@,
                    )
                    &&& r matches Ok(out) && out@.len() == l.list@.len() && forall|j: int|
                        0 <= j < out@.len() ==> is_chunk_reply(
                            #[trigger] out@[j],
                            client_id,
                            payload.payload_type@,
                            l.list@[j],
                            chunk_at(old(self).volume_storage@, l.list@[j].x, l.list@[j].y, l.list@[j].z),
                        )
                },
                Request::UnregisterChunk(q) => {
                    &&& final(self).volume_storage@ == old(self).volume_storage@
                    &&& final(self).change_registrations@ == deregistered(
                        old(self).change_registrations@,
                        client_id,
                        chunk_id_spec(q.x, q.y, q.z),
                    )
                    &&& sends_nothing(r)
                },
                Request::ClaimAuthority => same_state(*old(self), *final(self)) && r
                    == Err::<Vec<Outgoing>, DispatchError>(DispatchError::Unsupported),
                Request::Unknown => same_state(*old(self), *final(self)) && sends_nothing(r),
                Request::Malformed => same_state(*old(self), *final(self)) && r
                    == Err::<Vec<Outgoing>, DispatchError>(DispatchError::Malformed),
            },
    {
        match request {
            Request::Diff(d) => {
                if has_authority {
                    Ok(self.apply_and_forward(client_id, payload, d))
                } else {
                    Ok(Vec::new())
                }
            },
            Request::DiffList(l) => {
                if !has_authority {
                    return Ok(Vec::new());
                }
                let ghost start = self.volume_storage@;
                let ghost regs = self.change_registrations@;
                let ghost mut groups: Seq<Seq<Outgoing>> = Seq::empty();
                let mut out: Vec<Outgoing> = Vec::new();
                for i in 0..l.list.len()
                    invariant
                        self.wf(),
                        self.change_registrations@ == regs,
                        self.volume_storage@ == stored_after_diffs(start, l.list@.take(i as int)),
                        groups.len() == i,
                        out@ == concat(groups),
                        forall|j: int| 0 <= j < groups.len() ==> forwards_to(
                            #[trigger] groups[j],
                            subscribers(regs, l.list@[j].chunk_id),
                            client_id,
                            *payload,
                        ),
                {
                    let d = l.list[i];
                    let ghost before = groups;
                    let mut fresh = self.apply_and_forward(client_id, payload, d);
                    proof {
                        groups = groups.push(fresh@);
                        assert(groups.drop_last() =~= before);
                        assert(l.list@.take(i + 1).drop_last() =~= l.list@.take(i as int));
                    }
                    out.append(&mut fresh);
                    assert(out@ =~= concat(groups));
                }
                assert(l.list@.take(l.list@.len() as int) =~= l.list@);
                Ok(out)
            },
            Request::ChunkRequest(q) => {
                let reply = self.serve_chunk(client_id, has_authority, &payload.payload_type, q);
                let mut out: Vec<Outgoing> = Vec::new();
                out.push(reply);
                Ok(out)
            },
            Request::ChunkRequestList(l) => {
                let ghost start = self.volume_storage@;
                let ghost regs = self.change_registrations@;
                let mut out: Vec<Outgoing> = Vec::new();
                for i in 0..l.list.len()
                    invariant
                        self.wf(),
                        self.volume_storage@ == with_requested_chunks(start, l.list@.take(i as int)),
                        forall|x: u32, y: u32, z: u32| #[trigger] chunk_at(self.volume_storage@, x, y, z)
                            == chunk_at(start, x, y, z),
                        self.change_registrations@ == registered_for_requests(
                            regs,
                            has_authority,
                            client_id,
                            l.list@.take(i as int),
                        ),
                        out@.len() == i,
                        forall|j: int| 0 <= j < out@.len() ==> is_chunk_reply(
                            #[trigger] out@[j],
                            client_id,
                            payload.payload_type@,
                            l.list@[j],
                            chunk_at(start, l.list@[j].x, l.list@[j].y, l.list@[j].z),
                        ),
                {
                    let q = l.list[i];
                    let ghost mid = self.volume_storage@;
                    let reply = self.serve_chunk(client_id, has_authority, &payload.payload_type, q);
                    out.push(reply);
                    proof {
                        assert forall|x: u32, y: u32, z: u32| #[trigger] chunk_at(self.volume_storage@, x, y, z)
                            == chunk_at(start, x, y, z) by {
                            lemma_with_chunk_reads_same(mid, chunk_id_spec(q.x, q.y, q.z), x, y, z);
                        }
                    }
                    assert(l.list@.take(i + 1).drop_last() =~= l.list@.take(i as int));
                }
                assert(l.list@.take(l.list@.len() as int) =~= l.list@);
                Ok(out)
            },
            Request::UnregisterChunk(q) => {
                let id = chunk_id(q.x, q.y, q.z);
                self.change_registrations.deregister_for_chunk_changes(client_id, id);
                Ok(Vec::new())
            },
            Request::ClaimAuthority => Err(DispatchError::Unsupported),
            Request::Unknown => Ok(Vec::new()),
            Request::Malformed => Err(DispatchError::Malformed),
        }
    }
}

} // verus!
