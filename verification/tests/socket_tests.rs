//! Tests of what becomes of each reply of libxdp, down to the actions.

use xsk_rs::ring::XskRing;
use xsk_rs::{
    Action, CreateReply, CreateRequest, CtxMemory, Heap, RingMemory, Socket, SocketConfig,
    SocketCreateError, Umem, XSK_LIBXDP_FLAGS_INHIBIT_PROG_LOAD,
};

const CTX: CtxMemory = CtxMemory { fill: 0x30, comp: 0x40 };
const MEM: RingMemory = RingMemory { rx: 0x10, tx: 0x20, ctx: Some(CTX) };
const FIRST_MEM: RingMemory = RingMemory { rx: 0x10, tx: 0x20, ctx: None };

const CONFIG: SocketConfig = SocketConfig {
    rx_size: 2048,
    tx_size: 1024,
    libxdp_flags: 0,
    xdp_flags: 2,
    bind_flags: 8,
};

fn ring(at: usize) -> XskRing {
    XskRing { ring: at, ..XskRing::default() }
}

fn good_reply() -> CreateReply {
    CreateReply {
        err: 0,
        socket: 0x5000,
        rx: ring(0x100),
        tx: ring(0x200),
        fill: ring(0x300),
        comp: ring(0x400),
    }
}

fn new_umem() -> (Heap, Umem) {
    let mut heap = Heap::new();
    let umem = Umem::new(&mut heap, 0x9000, 0x50, ring(0x500), 0x60, ring(0x600));
    (heap, umem)
}

/// A UMEM whose own rings are with a socket that has gone again.
fn used_umem() -> (Heap, Umem) {
    let (mut heap, umem) = new_umem();
    let req = Socket::request(&heap, &umem, CONFIG, b"eth9".to_vec(), 0, FIRST_MEM);
    let reply = CreateReply { fill: ring(0x500), comp: ring(0x600), ..good_reply() };
    let (tx_q, rx_q, ctx_q) = Socket::complete(&mut heap, &umem, &req, &reply, Some(3)).unwrap();
    let (fq, cq) = ctx_q.unwrap();
    tx_q.drop(&mut heap);
    rx_q.drop(&mut heap);
    fq.drop(&mut heap);
    cq.drop(&mut heap);
    assert_eq!(heap.take_actions(), DELETED);
    (heap, umem)
}

fn request(heap: &Heap, umem: &Umem) -> CreateRequest {
    let mem = if umem.has_saved_rings(heap) { FIRST_MEM } else { MEM };
    Socket::request(heap, umem, CONFIG, b"eth0".to_vec(), 2, mem)
}

fn refused_by(
    (mut heap, umem): (Heap, Umem),
    reply: CreateReply,
    fd: Option<i32>,
) -> (SocketCreateError, Vec<Action>, Vec<Action>) {
    let req = request(&heap, &umem);
    let err = match Socket::complete(&mut heap, &umem, &req, &reply, fd) {
        Ok(_) => panic!("socket was created"),
        Err(e) => e,
    };
    let now = heap.take_actions();
    umem.drop(&mut heap);
    (err, now, heap.take_actions())
}

fn refused(reply: CreateReply, fd: Option<i32>) -> (SocketCreateError, Vec<Action>, Vec<Action>) {
    refused_by(used_umem(), reply, fd)
}

const UMEM_GONE: [Action; 3] =
    [Action::DeleteUmem(0x9000), Action::FreeProd(0x50), Action::FreeCons(0x60)];

const UMEM_AND_CTX_GONE: [Action; 5] = [
    Action::DeleteUmem(0x9000),
    Action::FreeProd(0x50),
    Action::FreeCons(0x60),
    Action::FreeProd(0x30),
    Action::FreeCons(0x40),
];

const DELETED: [Action; 3] =
    [Action::DeleteSocket(0x5000), Action::FreeCons(0x10), Action::FreeProd(0x20)];

#[test]
fn first_request_names_the_rings_of_the_umem() {
    let (heap, umem) = new_umem();
    let config =
        SocketConfig { libxdp_flags: XSK_LIBXDP_FLAGS_INHIBIT_PROG_LOAD, ..CONFIG };
    let req = Socket::request(&heap, &umem, config, b"eth0".to_vec(), 2, FIRST_MEM);
    assert_eq!(req.if_name, b"eth0".to_vec());
    assert_eq!(req.queue_id, 2);
    assert_eq!(req.umem, 0x9000);
    assert_eq!(req.config, config);
    assert!(req.saved);
    assert_eq!((req.rx.mem, req.rx.ring), (0x10, XskRing::default()));
    assert_eq!((req.tx.mem, req.tx.ring), (0x20, XskRing::default()));
    assert_eq!((req.fill.mem, req.fill.ring), (0x50, ring(0x500)));
    assert_eq!((req.comp.mem, req.comp.ring), (0x60, ring(0x600)));
}

#[test]
fn later_request_names_new_rings() {
    let (heap, umem) = used_umem();
    let req = request(&heap, &umem);
    assert!(!req.saved);
    assert_eq!((req.fill.mem, req.fill.ring), (0x30, XskRing::default()));
    assert_eq!((req.comp.mem, req.comp.ring), (0x40, XskRing::default()));
}

#[test]
fn umem_gets_its_rings_back_when_libxdp_fails() {
    let (mut heap, umem) = new_umem();
    let req = request(&heap, &umem);
    let reply = CreateReply { err: -12, fill: ring(0x501), ..good_reply() };
    assert!(Socket::complete(&mut heap, &umem, &req, &reply, None).is_err());
    assert_eq!(heap.take_actions(), [Action::FreeCons(0x10), Action::FreeProd(0x20)]);
    let req = request(&heap, &umem);
    assert!(req.saved);
    assert_eq!((req.fill.mem, req.fill.ring), (0x50, ring(0x501)));
    assert_eq!((req.comp.mem, req.comp.ring), (0x60, ring(0x400)));
    umem.drop(&mut heap);
    assert_eq!(heap.take_actions(), UMEM_GONE);
}

#[test]
fn umem_keeps_its_rings_when_libxdp_has_kept_pointers() {
    for reply in [
        CreateReply { socket: 0, ..good_reply() },
        CreateReply { socket: 0, fill: ring(0), ..good_reply() },
    ] {
        let (_, now, later) = refused_by(new_umem(), reply, None);
        assert_eq!(now, [Action::FreeCons(0x10), Action::FreeProd(0x20)]);
        assert_eq!(later, UMEM_GONE);
    }
}

#[test]
fn rings_of_the_umem_are_freed_when_libxdp_has_no_use_for_them() {
    let reply = CreateReply { socket: 0, fill: ring(0), comp: ring(0), ..good_reply() };
    let (_, now, later) = refused_by(new_umem(), reply, None);
    assert_eq!(
        now,
        [
            Action::FreeProd(0x50),
            Action::FreeCons(0x60),
            Action::FreeCons(0x10),
            Action::FreeProd(0x20)
        ]
    );
    assert_eq!(later, [Action::DeleteUmem(0x9000)]);
}

#[test]
fn libxdp_is_asked_for_a_descriptor_only_if_there_is_a_socket() {
    for (err, socket) in [(-1, 0x5000), (0, 0), (0, 0x5000)] {
        let (mut heap, umem) = new_umem();
        let mut asked = None;
        let mut calls = 0;
        let res = Socket::new(
            &mut heap,
            &umem,
            CONFIG,
            b"eth0".to_vec(),
            2,
            FIRST_MEM,
            |req| {
                calls += 1;
                assert_eq!(req.config, CONFIG);
                assert_eq!((req.rx.mem, req.tx.mem), (0x10, 0x20));
                CreateReply { err, socket, ..good_reply() }
            },
            |ptr| {
                asked = Some(ptr);
                9
            },
        );
        assert_eq!(calls, 1);
        let made = err == 0 && socket != 0;
        assert_eq!(res.is_ok(), made);
        assert_eq!(asked, if made { Some(0x5000) } else { None });
        if let Ok((tx_q, _, _)) = res {
            assert_eq!(tx_q.socket().fd(), 9);
        }
    }
}

#[test]
fn least_error_code_stands_for_itself() {
    let (err, _, _) = refused(CreateReply { err: i32::MIN, ..good_reply() }, None);
    assert_eq!(err.source(), Some(i32::MIN));
    let (err, _, _) = refused(CreateReply { err: i32::MAX, ..good_reply() }, None);
    assert_eq!(err.source(), Some(-i32::MAX));
}

#[test]
fn error_code_is_reported_and_all_rings_are_freed() {
    let (err, now, later) = refused(CreateReply { err: -16, ..good_reply() }, None);
    assert_eq!(err.to_string(), "non-zero error code returned when creating AF_XDP socket");
    assert_eq!(err.source(), Some(16));
    assert_eq!(
        now,
        [
            Action::FreeProd(0x30),
            Action::FreeCons(0x40),
            Action::FreeCons(0x10),
            Action::FreeProd(0x20)
        ]
    );
    assert_eq!(later, UMEM_GONE);
}

#[test]
fn positive_error_code_is_an_error_too() {
    let (err, _, _) = refused(CreateReply { err: 5, socket: 0, ..good_reply() }, None);
    assert_eq!(err.to_string(), "non-zero error code returned when creating AF_XDP socket");
    assert_eq!(err.source(), Some(-5));
}

#[test]
fn null_socket_is_refused() {
    let (err, now, later) = refused(CreateReply { socket: 0, ..good_reply() }, None);
    assert_eq!(err.to_string(), "returned socket pointer was null");
    assert_eq!(err.source(), None);
    assert_eq!(now, [Action::FreeCons(0x10), Action::FreeProd(0x20)]);
    assert_eq!(later, UMEM_AND_CTX_GONE);
}

#[test]
fn bad_file_descriptor_deletes_the_socket() {
    let (err, now, later) = refused(CreateReply { tx: ring(0), ..good_reply() }, Some(-1));
    assert_eq!(err.to_string(), "failed to retrieve AF_XDP socket file descriptor");
    assert_eq!(err.source(), None);
    assert_eq!(now, DELETED);
    assert_eq!(later, UMEM_AND_CTX_GONE);
}

#[test]
fn null_tx_ring_deletes_the_socket() {
    let reply = CreateReply { tx: ring(0), rx: ring(0), ..good_reply() };
    let (err, now, later) = refused(reply, Some(3));
    assert_eq!(err.to_string(), "returned tx queue ring is null");
    assert_eq!(err.source(), None);
    assert_eq!(now, DELETED);
    assert_eq!(later, UMEM_AND_CTX_GONE);
}

#[test]
fn null_rx_ring_deletes_the_socket() {
    let reply = CreateReply { rx: ring(0), fill: ring(0), ..good_reply() };
    let (err, now, later) = refused(reply, Some(3));
    assert_eq!(err.to_string(), "returned rx queue ring is null");
    assert_eq!(err.source(), None);
    assert_eq!(now, DELETED);
    assert_eq!(later, UMEM_AND_CTX_GONE);
}

#[test]
fn mismatched_fill_and_comp_rings_delete_the_socket() {
    let reason = "fill queue xor comp queue ring is null, either both or neither should be non-null";
    for reply in [
        CreateReply { fill: ring(0), ..good_reply() },
        CreateReply { comp: ring(0), ..good_reply() },
    ] {
        let (err, now, later) = refused(reply, Some(3));
        assert_eq!(err.to_string(), reason);
        assert_eq!(err.source(), None);
        assert_eq!(now, DELETED);
        assert_eq!(later, UMEM_AND_CTX_GONE);
    }
}

#[test]
fn rings_that_were_not_set_up_are_freed_before_a_deletion() {
    let reply = CreateReply { fill: ring(0), comp: ring(0), ..good_reply() };
    let (_, now, later) = refused(reply, Some(-1));
    assert_eq!(
        now,
        [
            Action::FreeProd(0x30),
            Action::FreeCons(0x40),
            Action::DeleteSocket(0x5000),
            Action::FreeCons(0x10),
            Action::FreeProd(0x20)
        ]
    );
    assert_eq!(later, UMEM_GONE);
}

#[test]
fn file_descriptor_zero_is_accepted() {
    let (mut heap, umem) = used_umem();
    let req = request(&heap, &umem);
    let reply = good_reply();
    let (tx_q, rx_q, _ctx_q) = match Socket::complete(&mut heap, &umem, &req, &reply, Some(0)) {
        Ok(parts) => parts,
        Err(e) => panic!("{}", e.to_string()),
    };
    assert_eq!(tx_q.socket().fd(), 0);
    assert_eq!(rx_q.socket().fd(), 0);
}

#[test]
fn queues_are_at_the_addresses_that_libxdp_has() {
    let (mut heap, umem) = used_umem();
    let req = request(&heap, &umem);
    let (tx_q, rx_q, ctx_q) =
        Socket::complete(&mut heap, &umem, &req, &good_reply(), Some(3)).unwrap();
    let (fq, cq) = ctx_q.unwrap();
    assert_eq!(heap.take_actions(), []);
    assert_eq!(tx_q.ring_ptr(&heap), 0x20);
    assert_eq!(rx_q.ring_ptr(&heap), 0x10);
    assert_eq!(fq.ring_ptr(&heap), 0x30);
    assert_eq!(cq.ring_ptr(&heap), 0x40);
    assert_eq!(fq.socket().fd(), 3);
    assert_eq!(cq.socket().fd(), 3);
    assert_eq!(cq.socket().as_ptr(&heap), 0x5000);
    assert_eq!(fq.socket().rx_ring_ptr(&heap), 0x10);
    assert_eq!(rx_q.socket().tx_ring_ptr(&heap), 0x20);

    // They stay there while other sockets come and go.
    let mem = RingMemory { rx: 0x11, tx: 0x21, ctx: Some(CtxMemory { fill: 0x31, comp: 0x41 }) };
    let req = Socket::request(&heap, &umem, CONFIG, b"eth1".to_vec(), 0, mem);
    let reply = CreateReply { socket: 0x6000, ..good_reply() };
    let (tx2, rx2, ctx2) = Socket::complete(&mut heap, &umem, &req, &reply, Some(3)).unwrap();
    let (fq2, cq2) = ctx2.unwrap();
    tx2.drop(&mut heap);
    cq2.drop(&mut heap);
    fq2.drop(&mut heap);
    assert_eq!(heap.take_actions(), []);
    rx2.drop(&mut heap);
    assert_eq!(
        heap.take_actions(),
        [Action::DeleteSocket(0x6000), Action::FreeCons(0x11), Action::FreeProd(0x21)]
    );
    assert_eq!(tx_q.ring_ptr(&heap), 0x20);
    assert_eq!(rx_q.ring_ptr(&heap), 0x10);
    assert_eq!(fq.ring_ptr(&heap), 0x30);
    assert_eq!(cq.ring_ptr(&heap), 0x40);
}

#[test]
fn a_clone_keeps_the_socket_alive() {
    let (mut heap, umem) = used_umem();
    let req = request(&heap, &umem);
    let reply = CreateReply { fill: ring(0), comp: ring(0), ..good_reply() };
    let (tx_q, rx_q, ctx_q) = Socket::complete(&mut heap, &umem, &req, &reply, Some(3)).unwrap();
    assert!(ctx_q.is_none());
    assert_eq!(heap.take_actions(), [Action::FreeProd(0x30), Action::FreeCons(0x40)]);
    let socket = tx_q.socket().clone(&mut heap);
    assert_eq!(socket.fd(), 3);
    tx_q.drop(&mut heap);
    rx_q.drop(&mut heap);
    umem.drop(&mut heap);
    assert_eq!(heap.take_actions(), []);
    socket.drop(&mut heap);
    let mut expected = DELETED.to_vec();
    expected.extend(UMEM_GONE);
    assert_eq!(heap.take_actions(), expected);
}

#[test]
fn actions_that_are_due_spare_live_rings() {
    let (mut heap, umem) = used_umem();
    let req = request(&heap, &umem);
    let (tx_q, rx_q, ctx_q) =
        Socket::complete(&mut heap, &umem, &req, &good_reply(), Some(3)).unwrap();
    let mem = RingMemory { rx: 0x11, tx: 0x21, ctx: Some(CtxMemory { fill: 0x31, comp: 0x41 }) };
    let config = SocketConfig { libxdp_flags: XSK_LIBXDP_FLAGS_INHIBIT_PROG_LOAD, ..CONFIG };
    let req = Socket::request(&heap, &umem, config, b"eth0".to_vec(), 2, mem);
    let reply =
        CreateReply { socket: 0x6000, fill: ring(0), comp: ring(0), ..good_reply() };
    let (tx2, rx2, ctx2) = Socket::complete(&mut heap, &umem, &req, &reply, Some(4)).unwrap();
    assert!(ctx2.is_none());
    tx2.drop(&mut heap);
    rx2.drop(&mut heap);
    let mem = RingMemory { rx: 0x12, tx: 0x22, ctx: Some(CtxMemory { fill: 0x32, comp: 0x42 }) };
    let req = Socket::request(&heap, &umem, config, b"eth0".to_vec(), 2, mem);
    let reply = CreateReply { err: -1, ..good_reply() };
    assert!(Socket::complete(&mut heap, &umem, &req, &reply, None).is_err());

    let (fq, cq) = ctx_q.unwrap();
    let live = [
        tx_q.ring_ptr(&heap),
        rx_q.ring_ptr(&heap),
        fq.ring_ptr(&heap),
        cq.ring_ptr(&heap),
    ];
    assert_eq!(live, [0x20, 0x10, 0x30, 0x40]);
    assert_eq!(
        heap.take_actions(),
        [
            Action::FreeProd(0x31),
            Action::FreeCons(0x41),
            Action::DeleteSocket(0x6000),
            Action::FreeCons(0x11),
            Action::FreeProd(0x21),
            Action::FreeProd(0x32),
            Action::FreeCons(0x42),
            Action::FreeCons(0x12),
            Action::FreeProd(0x22)
        ]
    );
}

#[test]
fn actions_are_taken_once() {
    let (mut heap, umem) = new_umem();
    umem.drop(&mut heap);
    assert_eq!(heap.take_actions(), UMEM_GONE);
    assert_eq!(heap.take_actions(), []);
}
