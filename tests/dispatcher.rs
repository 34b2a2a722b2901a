use volume_server::data_types::CHUNK_SIZE;
use volume_server::net::{NetChunkRequest, NetChunkRequestList, NetDeRegisterRequest, NetDiff, NetDiffList, NetPayload};
use volume_server::server::{
    is_authority, payload_kind, DispatchError, OutBody, Outgoing, PayloadKind, Request, ServerContext,
    AUTHORITY_ID,
};
use volume_server::spatial::morton_encode;
use volume_server::storage::Operations;

fn envelope(kind: &str, data: &str) -> NetPayload {
    NetPayload { payload_type: kind.to_string(), data: data.to_string() }
}

fn diff(chunk_id: u32, x: u32, y: u32, z: u32, density: u8, material: u8) -> NetDiff {
    NetDiff { chunk_id, x, y, z, density, material }
}

fn chunk_request(ctx: &mut ServerContext, client: i32, x: u32, y: u32, z: u32) -> Vec<Outgoing> {
    let p = envelope("chunkRequest", "{}");
    ctx.handle_request(client, is_authority(client), &p, Request::ChunkRequest(NetChunkRequest { x, y, z }))
        .unwrap()
}

fn targets(out: &[Outgoing]) -> Vec<i32> {
    let mut t: Vec<i32> = out.iter().map(|o| o.target).collect();
    t.sort();
    t
}

#[test]
fn payload_kinds_by_tag() {
    assert_eq!(payload_kind(&"diff".to_string()), PayloadKind::Diff);
    assert_eq!(payload_kind(&"diffList".to_string()), PayloadKind::DiffList);
    assert_eq!(payload_kind(&"chunkRequest".to_string()), PayloadKind::ChunkRequest);
    assert_eq!(payload_kind(&"chunkRequestList".to_string()), PayloadKind::ChunkRequestList);
    assert_eq!(payload_kind(&"unregisterChunk".to_string()), PayloadKind::UnregisterChunk);
    assert_eq!(payload_kind(&"claimAuthority".to_string()), PayloadKind::ClaimAuthority);
    assert_eq!(payload_kind(&"Diff".to_string()), PayloadKind::Unknown);
    assert_eq!(payload_kind(&"".to_string()), PayloadKind::Unknown);
}

#[test]
fn authority_is_first_client() {
    assert_eq!(AUTHORITY_ID, 0);
    assert!(is_authority(0));
    assert!(!is_authority(1));
}

#[test]
fn registered_client_gets_one_notification_until_deregistered() {
    let mut ctx = ServerContext::new();
    chunk_request(&mut ctx, 0, 0, 0, 0);
    chunk_request(&mut ctx, 5, 0, 0, 0);
    let p = envelope("diff", "d1");
    let out = ctx.handle_request(0, true, &p, Request::Diff(diff(0, 1, 2, 3, 9, 9))).unwrap();
    assert_eq!(out.iter().filter(|o| o.target == 5).count(), 1);
    let note = out.iter().find(|o| o.target == 5).unwrap();
    assert_eq!(note.sender, 0);
    assert_eq!(note.payload_type, "diff");
    assert!(matches!(&note.body, OutBody::Raw(d) if d == "d1"));

    let unreg = envelope("unregisterChunk", "{}");
    let none = ctx
        .handle_request(5, false, &unreg, Request::UnregisterChunk(NetDeRegisterRequest { x: 0, y: 0, z: 0 }))
        .unwrap();
    assert!(none.is_empty());
    let out = ctx.handle_request(0, true, &p, Request::Diff(diff(0, 1, 2, 3, 9, 9))).unwrap();
    assert_eq!(out.iter().filter(|o| o.target == 5).count(), 0);
    assert_eq!(targets(&out), vec![0]);
}

#[test]
fn non_authority_diff_changes_nothing() {
    let mut ctx = ServerContext::new();
    chunk_request(&mut ctx, 1, 0, 0, 0);
    ctx.volume_storage.create_chunk(0, 0, 0);
    let p = envelope("diff", "d");
    let out = ctx.handle_request(1, false, &p, Request::Diff(diff(0, 1, 1, 1, 100, 1))).unwrap();
    assert!(out.is_empty());
    assert_eq!(ctx.volume_storage.get(1, 1, 1).unwrap().density, 0);
    let list = NetDiffList { list: vec![diff(0, 1, 1, 1, 100, 1)] };
    let out = ctx.handle_request(1, false, &envelope("diffList", "l"), Request::DiffList(list)).unwrap();
    assert!(out.is_empty());
    assert_eq!(ctx.volume_storage.get(1, 1, 1).unwrap().density, 0);
}

#[test]
fn end_to_end_two_clients() {
    let mut ctx = ServerContext::new();
    let a = chunk_request(&mut ctx, 0, 0, 0, 0);
    assert_eq!(a.len(), 1);
    assert_eq!(a[0].target, 0);
    match &a[0].body {
        OutBody::Chunk(c) => {
            assert_eq!((c.x, c.y, c.z), (0, 0, 0));
            assert_eq!(c.density.len(), CHUNK_SIZE);
            assert_eq!(c.material.len(), CHUNK_SIZE);
            assert!(c.density.iter().all(|b| *b == 0));
            assert!(c.material.iter().all(|b| *b == 0));
        }
        OutBody::Raw(_) => panic!("expected a chunk"),
    }
    assert_eq!(ctx.change_registrations.subscribers_of(0), vec![0]);
    let b = chunk_request(&mut ctx, 1, 0, 0, 0);
    assert_eq!(b.len(), 1);
    assert_eq!(b[0].target, 1);
    assert_eq!(targets(&{
        let mut v = Vec::new();
        for c in ctx.change_registrations.subscribers_of(0) {
            v.push(Outgoing { target: c, sender: 0, payload_type: String::new(), body: OutBody::Raw(String::new()) });
        }
        v
    }), vec![0, 1]);

    let data = "{\"chunk_id\":0,\"x\":1,\"y\":1,\"z\":1,\"density\":100,\"material\":1}";
    let p = envelope("diff", data);
    let out = ctx.handle_request(0, true, &p, Request::Diff(diff(0, 1, 1, 1, 100, 1))).unwrap();
    assert_eq!(targets(&out), vec![0, 1]);
    for o in &out {
        assert_eq!(o.payload_type, "diff");
        assert!(matches!(&o.body, OutBody::Raw(d) if d == data));
    }

    let again = chunk_request(&mut ctx, 1, 0, 0, 0);
    let idx = morton_encode(1, 1, 1, 32) as usize;
    match &again[0].body {
        OutBody::Chunk(c) => {
            for i in 0..CHUNK_SIZE {
                if i == idx {
                    assert_eq!((c.density[i], c.material[i]), (100, 1));
                } else {
                    assert_eq!((c.density[i], c.material[i]), (0, 0));
                }
            }
        }
        OutBody::Raw(_) => panic!("expected a chunk"),
    }
}

#[test]
fn malformed_payload_is_refused_and_service_continues() {
    let mut ctx = ServerContext::new();
    chunk_request(&mut ctx, 0, 0, 0, 0);
    let bad = envelope("diff", "not json");
    assert!(matches!(ctx.handle_request(1, false, &bad, Request::Malformed), Err(DispatchError::Malformed)));
    assert!(matches!(ctx.handle_request(0, true, &bad, Request::Malformed), Err(DispatchError::Malformed)));
    let b = chunk_request(&mut ctx, 1, 0, 0, 0);
    assert_eq!(b.len(), 1);
    assert_eq!(ctx.change_registrations.subscribers_of(0).len(), 2);
}

#[test]
fn claim_authority_is_unsupported() {
    let mut ctx = ServerContext::new();
    let p = envelope("claimAuthority", "");
    assert!(matches!(ctx.handle_request(3, false, &p, Request::ClaimAuthority), Err(DispatchError::Unsupported)));
}

#[test]
fn unknown_kind_is_ignored() {
    let mut ctx = ServerContext::new();
    let p = envelope("bogus", "");
    assert!(ctx.handle_request(0, true, &p, Request::Unknown).unwrap().is_empty());
    assert_eq!(ctx.volume_storage.getChunkCount(), 0);
}

#[test]
fn diff_list_applies_in_order_and_forwards_per_diff() {
    let mut ctx = ServerContext::new();
    ctx.volume_storage.create_chunk(0, 0, 0);
    ctx.volume_storage.create_chunk(1, 0, 0);
    chunk_request(&mut ctx, 2, 0, 0, 0);
    chunk_request(&mut ctx, 3, 1, 0, 0);
    let list = NetDiffList {
        list: vec![diff(0, 1, 1, 1, 5, 5), diff(0, 1, 1, 1, 6, 6), diff(1, 0, 0, 0, 7, 7)],
    };
    let p = envelope("diffList", "all");
    let out = ctx.handle_request(0, true, &p, Request::DiffList(list)).unwrap();
    let t: Vec<i32> = out.iter().map(|o| o.target).collect();
    assert_eq!(t, vec![2, 2, 3]);
    assert_eq!(ctx.volume_storage.get(1, 1, 1).unwrap().density, 6);
    assert_eq!(ctx.volume_storage.get(32, 0, 0).unwrap().material, 7);
}

#[test]
fn chunk_request_list_answers_each_and_registers() {
    let mut ctx = ServerContext::new();
    ctx.volume_storage.set_global(32, 0, 0, volume_server::data_types::Point { density: 4, material: 4 });
    let list = NetChunkRequestList {
        list: vec![NetChunkRequest { x: 0, y: 0, z: 0 }, NetChunkRequest { x: 1, y: 0, z: 0 }],
    };
    let p = envelope("chunkRequestList", "l");
    let out = ctx.handle_request(7, false, &p, Request::ChunkRequestList(list)).unwrap();
    assert_eq!(out.len(), 2);
    for (o, x) in out.iter().zip([0u32, 1u32]) {
        assert_eq!(o.target, 7);
        assert_eq!(o.payload_type, "chunkRequestList");
        match &o.body {
            OutBody::Chunk(c) => {
                assert_eq!(c.x, x);
                assert_eq!(c.density[0], if x == 1 { 4 } else { 0 });
            }
            OutBody::Raw(_) => panic!("expected a chunk"),
        }
    }
    assert_eq!(ctx.change_registrations.subscribers_of(0), vec![7]);
    assert_eq!(ctx.change_registrations.subscribers_of(1), vec![7]);
    assert_eq!(ctx.change_registrations.registrations[&1][&7], false);
}
