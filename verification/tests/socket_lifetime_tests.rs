//! Tests covering the lifetime of the rings handed to libxdp.
//!
//! A libxdp of our own stands in for the real one. It keeps the pointers
//! it is passed and reads the rings again during teardown to work out
//! which memory to unmap, and it panics if a ring has been freed by then.
//! A device queue stays busy for as long as a mapping of a socket that
//! was bound to it is left, so a test only notices a broken teardown if
//! it binds to the same device and queue id a second time.

use std::cell::RefCell;
use std::collections::{BTreeMap, BTreeSet};

use xsk_rs::ring::XskRing;
use xsk_rs::{
    Action, CompQueue, CreateReply, CreateRequest, CtxMemory, FillQueue, Heap, RingMemory, RxQueue,
    Socket, SocketConfig, SocketCreateError, TxQueue, Umem, XSK_LIBXDP_FLAGS_INHIBIT_PROG_LOAD,
};

const QUEUE_ID: u32 = 0;
const EBUSY: i32 = 16;
const MAPPING: usize = 28 * 1024;

type SocketParts = (TxQueue, RxQueue, Option<(FillQueue, CompQueue)>);

struct FakeCtx {
    device: (Vec<u8>, u32),
    refcount: usize,
    fill: usize,
    comp: usize,
}

struct FakeUmem {
    save: Option<(usize, usize)>,
    sockets: usize,
    ctxs: Vec<FakeCtx>,
}

struct FakeSocket {
    umem: usize,
    device: (Vec<u8>, u32),
    rx: usize,
    tx: usize,
}

#[derive(Default)]
struct Libxdp {
    next: usize,
    prod: BTreeMap<usize, XskRing>,
    cons: BTreeMap<usize, XskRing>,
    umems: BTreeMap<usize, FakeUmem>,
    sockets: BTreeMap<usize, FakeSocket>,
    maps: BTreeMap<usize, Option<(Vec<u8>, u32)>>,
    deleted: Vec<usize>,
}

impl Libxdp {
    fn address(&mut self) -> usize {
        self.next += 0x1000;
        self.next
    }

    fn prod_ring(&mut self) -> usize {
        let mem = self.address();
        self.prod.insert(mem, XskRing::default());
        mem
    }

    fn cons_ring(&mut self) -> usize {
        let mem = self.address();
        self.cons.insert(mem, XskRing::default());
        mem
    }

    fn map(&mut self, device: Option<(Vec<u8>, u32)>) -> XskRing {
        let ring = self.address();
        self.maps.insert(ring, device);
        XskRing { mask: 2047, size: 2048, ring, ..XskRing::default() }
    }

    fn unmap(&mut self, ring: usize) {
        assert!(self.maps.remove(&ring).is_some(), "unmapped a garbage address");
    }

    fn mapped_bytes(&self) -> usize {
        self.maps.len() * MAPPING
    }

    fn create_umem(&mut self) -> (usize, usize, usize) {
        let (fill, comp) = (self.prod_ring(), self.cons_ring());
        let ring = self.map(None);
        self.prod.insert(fill, ring);
        let ring = self.map(None);
        self.cons.insert(comp, ring);
        let ptr = self.address();
        self.umems.insert(ptr, FakeUmem { save: Some((fill, comp)), sockets: 0, ctxs: vec![] });
        (ptr, fill, comp)
    }

    fn create_shared(&mut self, request: &CreateRequest) -> CreateReply {
        let device = (request.if_name.clone(), request.queue_id);
        let (rx_mem, tx_mem) = (request.rx.mem, request.tx.mem);
        let (fill_mem, comp_mem) = (request.fill.mem, request.comp.mem);
        assert_eq!(self.cons[&rx_mem], request.rx.ring);
        assert_eq!(self.prod[&tx_mem], request.tx.ring);
        assert_eq!(self.prod[&fill_mem], request.fill.ring);
        assert_eq!(self.cons[&comp_mem], request.comp.ring);
        let known = self.umems[&request.umem].ctxs.iter().any(|c| c.device == device);
        let inhibit = request.config.libxdp_flags & XSK_LIBXDP_FLAGS_INHIBIT_PROG_LOAD != 0;
        assert!(!known || inhibit, "program loaded twice");
        let busy = self.maps.values().any(|d| d.as_ref() == Some(&device));
        let save = self.umems[&request.umem].save;
        if known {
            let umem = self.umems.get_mut(&request.umem).unwrap();
            umem.ctxs.iter_mut().find(|c| c.device == device).unwrap().refcount += 1;
        } else {
            let (fill, comp) = match save {
                Some((fill, comp)) => (self.prod[&fill], self.cons[&comp]),
                None => (self.map(None), self.map(None)),
            };
            self.prod.insert(fill_mem, fill);
            self.cons.insert(comp_mem, comp);
        }
        let mut reply = CreateReply {
            err: -EBUSY,
            socket: 0,
            rx: self.cons[&rx_mem],
            tx: self.prod[&tx_mem],
            fill: self.prod[&fill_mem],
            comp: self.cons[&comp_mem],
        };
        if busy && !known {
            // Only the rings that the umem was created with stay mapped.
            if save.map(|s| s.0) != Some(fill_mem) {
                self.unmap(reply.fill.ring);
                self.unmap(reply.comp.ring);
            }
            return reply;
        }
        if !known {
            self.maps.insert(reply.fill.ring, Some(device.clone()));
            self.maps.insert(reply.comp.ring, Some(device.clone()));
            let umem = self.umems.get_mut(&request.umem).unwrap();
            umem.ctxs.push(FakeCtx {
                device: device.clone(),
                refcount: 1,
                fill: fill_mem,
                comp: comp_mem,
            });
        }
        reply.rx = self.map(Some(device.clone()));
        reply.tx = self.map(Some(device.clone()));
        self.cons.insert(rx_mem, reply.rx);
        self.prod.insert(tx_mem, reply.tx);
        let umem = self.umems.get_mut(&request.umem).unwrap();
        umem.sockets += 1;
        umem.save = None;
        reply.err = 0;
        reply.socket = self.address();
        self.sockets.insert(
            reply.socket,
            FakeSocket { umem: request.umem, device, rx: rx_mem, tx: tx_mem },
        );
        reply
    }

    fn fd(&self, ptr: usize) -> i32 {
        assert!(self.sockets.contains_key(&ptr), "asked for the descriptor of no socket");
        7
    }

    fn delete_socket(&mut self, ptr: usize) {
        let socket = self.sockets.remove(&ptr).expect("socket deleted twice");
        let rx = self.cons[&socket.rx].ring;
        let tx = self.prod[&socket.tx].ring;
        self.unmap(rx);
        self.unmap(tx);
        let umem = self.umems.get_mut(&socket.umem).expect("umem deleted before its socket");
        umem.sockets -= 1;
        let i = umem.ctxs.iter().position(|c| c.device == socket.device).unwrap();
        umem.ctxs[i].refcount -= 1;
        if umem.ctxs[i].refcount == 0 {
            let ctx = umem.ctxs.remove(i);
            let fill = self.prod[&ctx.fill].ring;
            let comp = self.cons[&ctx.comp].ring;
            self.unmap(fill);
            self.unmap(comp);
        }
        self.deleted.push(ptr);
    }

    fn delete_umem(&mut self, ptr: usize) {
        let umem = self.umems.remove(&ptr).expect("umem deleted twice");
        assert_eq!(umem.sockets, 0);
        if let Some((fill, comp)) = umem.save {
            let fill = self.prod[&fill].ring;
            let comp = self.cons[&comp].ring;
            self.unmap(fill);
            self.unmap(comp);
        }
    }

    fn perform(&mut self, heap: &mut Heap) {
        for action in heap.take_actions() {
            match action {
                Action::DeleteSocket(ptr) => self.delete_socket(ptr),
                Action::DeleteUmem(ptr) => self.delete_umem(ptr),
                Action::FreeCons(mem) => assert!(self.cons.remove(&mem).is_some()),
                Action::FreeProd(mem) => assert!(self.prod.remove(&mem).is_some()),
            }
        }
    }
}

/// A heap and the libxdp behind it.
struct World {
    heap: Heap,
    libxdp: Libxdp,
}

impl World {
    fn new() -> World {
        World { heap: Heap::new(), libxdp: Libxdp::default() }
    }

    fn build_umem(&mut self) -> Umem {
        let (ptr, fill, comp) = self.libxdp.create_umem();
        let (f, c) = (self.libxdp.prod[&fill], self.libxdp.cons[&comp]);
        Umem::new(&mut self.heap, ptr, fill, f, comp, c)
    }

    fn bind_queue(
        &mut self,
        umem: &Umem,
        if_name: &str,
        queue_id: u32,
        inhibit: bool,
    ) -> Result<SocketParts, SocketCreateError> {
        let ctx = if umem.has_saved_rings(&self.heap) {
            None
        } else {
            Some(CtxMemory { fill: self.libxdp.prod_ring(), comp: self.libxdp.cons_ring() })
        };
        let mem = RingMemory { rx: self.libxdp.cons_ring(), tx: self.libxdp.prod_ring(), ctx };
        let config = SocketConfig {
            rx_size: 2048,
            tx_size: 2048,
            libxdp_flags: if inhibit { XSK_LIBXDP_FLAGS_INHIBIT_PROG_LOAD } else { 0 },
            xdp_flags: 0,
            bind_flags: 0,
        };
        let libxdp = RefCell::new(&mut self.libxdp);
        let res = Socket::new(
            &mut self.heap,
            umem,
            config,
            if_name.as_bytes().to_vec(),
            queue_id,
            mem,
            |request| libxdp.borrow_mut().create_shared(request),
            |ptr| libxdp.borrow().fd(ptr),
        );
        self.libxdp.perform(&mut self.heap);
        res
    }

    fn bind_socket(
        &mut self,
        umem: &Umem,
        if_name: &str,
    ) -> Result<SocketParts, SocketCreateError> {
        self.bind_queue(umem, if_name, QUEUE_ID, false)
    }

    fn bind_fresh(&mut self, if_name: &str) -> Result<SocketParts, SocketCreateError> {
        let umem = self.build_umem();
        let res = self.bind_socket(&umem, if_name);
        self.drop_umem(umem);
        res
    }

    fn assert_can_bind(&mut self, if_name: &str) {
        let socket = self.bind_fresh(if_name).expect("failed to bind");
        self.drop_all(socket);
    }

    fn drop_umem(&mut self, umem: Umem) {
        umem.drop(&mut self.heap);
        self.libxdp.perform(&mut self.heap);
    }

    fn drop_tx(&mut self, tx_q: TxQueue) {
        tx_q.drop(&mut self.heap);
        self.libxdp.perform(&mut self.heap);
    }

    fn drop_rx(&mut self, rx_q: RxQueue) {
        rx_q.drop(&mut self.heap);
        self.libxdp.perform(&mut self.heap);
    }

    fn drop_fill(&mut self, fq: FillQueue) {
        fq.drop(&mut self.heap);
        self.libxdp.perform(&mut self.heap);
    }

    fn drop_comp(&mut self, cq: CompQueue) {
        cq.drop(&mut self.heap);
        self.libxdp.perform(&mut self.heap);
    }

    fn drop_ctx(&mut self, fq_and_cq: Option<(FillQueue, CompQueue)>) {
        if let Some((fq, cq)) = fq_and_cq {
            self.drop_fill(fq);
            self.drop_comp(cq);
        }
    }

    fn drop_all(&mut self, (tx_q, rx_q, fq_and_cq): SocketParts) {
        self.drop_tx(tx_q);
        self.drop_rx(rx_q);
        self.drop_ctx(fq_and_cq);
    }

    fn assert_empty(&self) {
        assert!(self.libxdp.prod.is_empty());
        assert!(self.libxdp.cons.is_empty());
        assert!(self.libxdp.sockets.is_empty());
        assert!(self.libxdp.umems.is_empty());
        assert!(self.libxdp.maps.is_empty());
    }
}

#[test]
fn device_can_be_bound_again_after_socket_dropped() {
    let mut w = World::new();
    let umem = w.build_umem();
    let socket = w.bind_socket(&umem, "veth0").expect("failed to bind first socket");

    w.drop_all(socket);
    w.drop_umem(umem);

    w.assert_can_bind("veth0");
    w.assert_empty();
}

#[test]
fn device_can_be_bound_again_when_rx_queue_dropped_before_tx_queue() {
    let mut w = World::new();
    let umem = w.build_umem();
    let (tx_q, rx_q, fq_and_cq) = w.bind_socket(&umem, "veth0").expect("failed to bind socket");

    w.drop_rx(rx_q);
    w.drop_tx(tx_q);
    w.drop_ctx(fq_and_cq);
    w.drop_umem(umem);

    w.assert_can_bind("veth0");
    w.assert_empty();
}

#[test]
fn device_can_be_bound_again_when_tx_queue_dropped_before_rx_queue() {
    let mut w = World::new();
    let umem = w.build_umem();
    let (tx_q, rx_q, fq_and_cq) = w.bind_socket(&umem, "veth0").expect("failed to bind socket");

    w.drop_tx(tx_q);
    w.drop_rx(rx_q);
    w.drop_ctx(fq_and_cq);
    w.drop_umem(umem);

    w.assert_can_bind("veth0");
    w.assert_empty();
}

#[test]
fn device_can_be_bound_repeatedly() {
    let mut w = World::new();
    for i in 0..5 {
        let socket = match w.bind_fresh("veth0") {
            Ok(socket) => socket,
            Err(e) => panic!("failed to bind socket on iteration {}: {}", i, e.to_string()),
        };
        w.drop_all(socket);
    }
    w.assert_empty();
}

const CYCLES: usize = 20;
const MAPPING_GROWTH_TOLERANCE: usize = 512 * 1024;

#[test]
fn dropping_a_socket_unmaps_its_rings() {
    let mut w = World::new();
    let mut cycle = |w: &mut World, i: usize| {
        let socket = match w.bind_fresh("veth0") {
            Ok(socket) => socket,
            Err(e) => panic!("failed to bind socket on cycle {}: {}", i, e.to_string()),
        };
        w.drop_all(socket);
    };

    cycle(&mut w, 0);
    let baseline = w.libxdp.mapped_bytes();
    for i in 1..=CYCLES {
        cycle(&mut w, i);
    }
    let growth = w.libxdp.mapped_bytes().saturating_sub(baseline);
    assert!(growth < MAPPING_GROWTH_TOLERANCE);
    assert_eq!(growth, 0);
}

/// What is left to drop of a socket and its UMEM.
struct Parts {
    tx: Option<TxQueue>,
    rx: Option<RxQueue>,
    fill: Option<FillQueue>,
    comp: Option<CompQueue>,
    umem: Option<Umem>,
}

fn drop_in_order(order: &[usize]) {
    let mut w = World::new();
    let umem = w.build_umem();
    let (tx_q, rx_q, fq_and_cq) = w.bind_socket(&umem, "veth0").expect("failed to bind socket");
    let (fq, cq) = fq_and_cq.unwrap();
    let mut parts = Parts {
        tx: Some(tx_q),
        rx: Some(rx_q),
        fill: Some(fq),
        comp: Some(cq),
        umem: Some(umem),
    };
    let mut left: BTreeSet<usize> = (0..4).collect();
    for part in order {
        match part {
            0 => w.drop_tx(parts.tx.take().unwrap()),
            1 => w.drop_rx(parts.rx.take().unwrap()),
            2 => w.drop_fill(parts.fill.take().unwrap()),
            3 => w.drop_comp(parts.comp.take().unwrap()),
            _ => w.drop_umem(parts.umem.take().unwrap()),
        }
        left.remove(part);
        assert_eq!(w.libxdp.sockets.is_empty(), left.is_empty());
        assert_eq!(w.libxdp.deleted.len(), if left.is_empty() { 1 } else { 0 });
        assert_eq!(w.libxdp.umems.is_empty(), left.is_empty() && parts.umem.is_none());
    }
    w.assert_empty();
    w.assert_can_bind("veth0");
}

#[test]
fn queues_and_umem_can_be_dropped_in_any_order() {
    let mut orders = vec![vec![]];
    for _ in 0..5 {
        let mut longer: Vec<Vec<usize>> = vec![];
        for order in orders {
            for part in 0..5 {
                if !order.contains(&part) {
                    let mut next = order.clone();
                    next.push(part);
                    longer.push(next);
                }
            }
        }
        orders = longer;
    }
    assert_eq!(orders.len(), 120);
    for order in &orders {
        drop_in_order(order);
    }
}

#[test]
fn dropping_tx_and_rx_queue_does_not_release_the_device() {
    let mut w = World::new();
    let umem = w.build_umem();
    let (tx_q, rx_q, fq_and_cq) = w.bind_socket(&umem, "veth0").expect("failed to bind socket");

    w.drop_tx(tx_q);
    w.drop_rx(rx_q);
    assert_eq!(w.libxdp.sockets.len(), 1);

    match w.bind_fresh("veth0") {
        Ok(_) => panic!("device was released"),
        Err(e) => assert_eq!(e.source(), Some(EBUSY)),
    }

    w.drop_ctx(fq_and_cq);
    w.drop_umem(umem);
    w.assert_can_bind("veth0");
}

#[test]
fn busy_device_is_reported_with_its_os_error() {
    let mut w = World::new();
    let first = w.bind_fresh("veth0").expect("failed to bind first socket");
    match w.bind_fresh("veth0") {
        Ok(_) => panic!("bound twice"),
        Err(e) => {
            assert_eq!(
                e.to_string(),
                "non-zero error code returned when creating AF_XDP socket"
            );
            assert_eq!(e.source(), Some(EBUSY));
        }
    }
    w.drop_all(first);
    w.assert_empty();
}

#[test]
fn umem_survives_a_failure_to_bind_its_first_socket() {
    let mut w = World::new();
    let first = w.bind_fresh("veth0").expect("failed to bind first socket");
    let umem = w.build_umem();
    for _ in 0..3 {
        assert!(umem.has_saved_rings(&w.heap));
        assert!(matches!(w.bind_socket(&umem, "veth0"), Err(_)));
    }
    w.drop_all(first);
    let socket = w.bind_socket(&umem, "veth0").expect("failed to bind");
    assert!(!umem.has_saved_rings(&w.heap));
    assert!(socket.2.is_some());
    w.drop_all(socket);
    let socket = w.bind_socket(&umem, "veth0").expect("failed to bind again");
    assert!(socket.2.is_some());
    w.drop_all(socket);
    w.drop_umem(umem);
    w.assert_empty();
}

#[test]
fn umem_without_sockets_unmaps_its_rings() {
    let mut w = World::new();
    let first = w.bind_fresh("veth0").expect("failed to bind first socket");
    let umem = w.build_umem();
    assert!(matches!(w.bind_socket(&umem, "veth0"), Err(_)));
    w.drop_umem(umem);
    w.drop_all(first);
    w.assert_empty();
}

#[test]
fn failure_to_bind_a_later_socket_leaves_nothing_behind() {
    let mut w = World::new();
    let first = w.bind_fresh("veth0").expect("failed to bind first socket");
    let umem = w.build_umem();
    let socket = w.bind_socket(&umem, "veth1").expect("failed to bind");
    let (prod, cons, maps) = (w.libxdp.prod.len(), w.libxdp.cons.len(), w.libxdp.maps.len());
    assert!(matches!(w.bind_socket(&umem, "veth0"), Err(_)));
    assert_eq!(w.libxdp.prod.len(), prod);
    assert_eq!(w.libxdp.cons.len(), cons);
    assert_eq!(w.libxdp.maps.len(), maps);
    w.drop_umem(umem);
    w.drop_all(socket);
    w.drop_all(first);
    w.assert_empty();
}

#[test]
fn clones_of_a_socket_keep_the_device_bound() {
    let mut w = World::new();
    let umem = w.build_umem();
    let (tx_q, rx_q, fq_and_cq) = w.bind_socket(&umem, "veth0").expect("failed to bind socket");
    let a = tx_q.socket().clone(&mut w.heap);
    let b = a.clone(&mut w.heap);
    w.drop_umem(umem);
    w.drop_rx(rx_q);
    a.drop(&mut w.heap);
    w.libxdp.perform(&mut w.heap);
    w.drop_ctx(fq_and_cq);
    w.drop_tx(tx_q);
    assert!(w.libxdp.deleted.is_empty());
    assert!(matches!(w.bind_fresh("veth0"), Err(_)));
    b.drop(&mut w.heap);
    w.libxdp.perform(&mut w.heap);
    assert_eq!(w.libxdp.deleted.len(), 1);
    w.assert_empty();
    w.assert_can_bind("veth0");
}

#[test]
fn second_socket_on_a_bound_device_gets_no_fill_and_comp_queue() {
    let mut w = World::new();
    let umem = w.build_umem();
    let (tx1, rx1, ctx1) = w.bind_socket(&umem, "veth0").expect("failed to bind first socket");
    let (tx2, rx2, ctx2) =
        w.bind_queue(&umem, "veth0", QUEUE_ID, true).expect("failed to bind second socket");
    assert!(ctx1.is_some());
    assert!(ctx2.is_none());

    // The device is released only once every socket on it has gone.
    w.drop_tx(tx1);
    w.drop_rx(rx1);
    w.drop_ctx(ctx1);
    assert_eq!(w.libxdp.deleted.len(), 1);
    assert!(matches!(w.bind_fresh("veth0"), Err(_)));
    w.drop_rx(rx2);
    w.drop_tx(tx2);
    assert_eq!(w.libxdp.deleted.len(), 2);
    w.drop_umem(umem);
    w.assert_can_bind("veth0");
    w.assert_empty();
}

#[test]
fn sharing_a_umem_across_devices_gets_queues_for_each() {
    let mut w = World::new();
    let umem = w.build_umem();
    let other = umem.clone(&mut w.heap);
    let a = w.bind_queue(&umem, "veth0", 0, false).expect("failed to bind");
    let b = w.bind_queue(&other, "veth0", 1, false).expect("failed to bind");
    let c = w.bind_queue(&umem, "veth1", 0, false).expect("failed to bind");
    assert!(a.2.is_some() && b.2.is_some() && c.2.is_some());
    w.drop_umem(umem);
    w.drop_all(b);
    w.drop_all(a);
    w.drop_umem(other);
    assert_eq!(w.libxdp.umems.len(), 1);
    w.drop_all(c);
    w.assert_empty();
}
