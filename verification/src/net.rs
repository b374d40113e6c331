//! The socket transmit pipeline.
//!
//! A packet is built by OSI layers composed from a socket descriptor and an
//! address structure: the transport layer wraps the payload, the network
//! layer wraps the transport's output, and the terminal stage hands the
//! finished packet to the device's transmit queue.

use vstd::prelude::*;

use crate::checksum::{compute_rfc1071, lemma_checksum_roundtrip, spec_rfc1071};
use crate::errno::{Errno, EINVAL, ENOTSUP};

verus! {

/// The address family of IPv4 sockets.
pub const AF_INET: u32 = 2;
/// The address family of IPv6 sockets.
pub const AF_INET6: u32 = 10;
/// The default time-to-live of emitted packets.
pub const DEFAULT_TTL: u8 = 128;
/// Protocol number: TCP.
pub const PROTO_TCP: u8 = 6;
/// Protocol number: UDP.
pub const PROTO_UDP: u8 = 17;

/// A socket's descriptor: its domain, type and protocol.
#[derive(Clone, Copy, Debug, PartialEq, Eq, Structural)]
pub struct SocketDesc {
    /// The communication domain (layer-3 id).
    pub domain: u32,
    /// The socket type.
    pub type_: u32,
    /// The protocol (layer-4 id); zero asks for the domain's default.
    pub protocol: u32,
}

/// A list of buffers accumulating a packet's parts, headers at the front.
pub struct BuffList {
    /// The chunks, in packet order.
    chunks: Vec<Vec<u8>>,
}

/// The bytes of a chunk list, in order.
pub open spec fn spec_flat(chunks: Seq<Seq<u8>>) -> Seq<u8>
    decreases chunks.len(),
{
    if chunks.len() == 0 {
        Seq::empty()
    } else {
        chunks[0] + spec_flat(chunks.skip(1))
    }
}

impl View for BuffList {
    type V = Seq<Seq<u8>>;

    closed spec fn view(&self) -> Seq<Seq<u8>> {
        Seq::new(self.chunks@.len(), |i: int| self.chunks@[i]@)
    }
}

impl BuffList {
    /// The packet bytes the list carries.
    pub open spec fn flat(&self) -> Seq<u8> {
        spec_flat(self@)
    }

    /// Creates a list of one chunk.
    pub fn from_bytes(data: Vec<u8>) -> (r: Self)
        ensures
            r@.len() == 1,
            r@[0] == data@,
            r.flat() == data@,
    {
        let mut chunks: Vec<Vec<u8>> = Vec::new();
        chunks.push(data);
        let r = BuffList { chunks };
        proof {
            assert(r@.skip(1) =~= Seq::<Seq<u8>>::empty());
            assert(spec_flat(Seq::<Seq<u8>>::empty()) =~= Seq::<u8>::empty());
            assert(r@[0] == data@);
            assert(r.flat() =~= data@);
        }
        r
    }

    /// Returns the first chunk's bytes.
    pub fn inner(&self) -> (r: &[u8])
        requires
            self@.len() > 0,
        ensures
            r@ == self@[0],
    {
        self.chunks[0].as_slice()
    }

    /// Returns the total length of the carried bytes.
    pub fn len(&self) -> (r: usize)
        requires
            self.flat().len() <= usize::MAX,
        ensures
            r == self.flat().len(),
    {
        let mut total: usize = 0;
        let n = self.chunks.len();
        let mut i: usize = 0;
        proof {
            lemma_flat_len(self@);
            assert(self@.skip(0) =~= self@);
        }
        while i < n
            invariant
                i <= n,
                n == self@.len(),
                total + spec_flat(self@.skip(i as int)).len() == self.flat().len(),
            decreases n - i,
        {
            proof {
                lemma_flat_len(self@.skip(i + 1));
                assert(self@.skip(i as int)[0] == self@[i as int]);
                assert(self@.skip(i as int).skip(1) =~= self@.skip(i + 1));
            }
            total = total + self.chunks[i].len();
            i += 1;
        }
        proof {
            assert(self@.skip(n as int) =~= Seq::<Seq<u8>>::empty());
        }
        total
    }

    /// Pushes a chunk at the front of the list: the packet grows leftward
    /// as layers prepend their headers.
    pub fn push_front(&mut self, front: Vec<u8>)
        ensures
            final(self)@ == seq![front@] + old(self)@,
            final(self).flat() == front@ + old(self).flat(),
    {
        self.chunks.insert(0, front);
        proof {
            assert(self@ =~= seq![front@] + old(self)@);
            assert(self@.skip(1) =~= old(self)@);
        }
    }

    /// Returns the carried bytes, chunk after chunk in packet order.
    pub fn iter(&self) -> (r: Vec<u8>)
        requires
            self.flat().len() <= usize::MAX,
        ensures
            r@ == self.flat(),
    {
        self.iter_bytes()
    }

    /// Returns the chunks as one flat byte vector, in packet order.
    pub fn iter_bytes(&self) -> (r: Vec<u8>)
        requires
            self.flat().len() <= usize::MAX,
        ensures
            r@ == self.flat(),
    {
        let mut out: Vec<u8> = Vec::new();
        let n = self.chunks.len();
        let mut i: usize = 0;
        proof {
            assert(self@.skip(0) =~= self@);
        }
        while i < n
            invariant
                i <= n,
                n == self@.len(),
                out@ + spec_flat(self@.skip(i as int)) == self.flat(),
            decreases n - i,
        {
            proof {
                lemma_flat_len(self@);
                assert(self@.skip(i as int)[0] == self@[i as int]);
                assert(self@.skip(i as int).skip(1) =~= self@.skip(i + 1));
            }
            let chunk = &self.chunks[i];
            let m = chunk.len();
            let mut j: usize = 0;
            while j < m
                invariant
                    j <= m,
                    i < n == self@.len(),
                    m == self@[i as int].len(),
                    out@ + self@[i as int].skip(j as int) + spec_flat(self@.skip(i + 1))
                        == self.flat(),
                decreases m - j,
            {
                let ghost prev = out@;
                out.push(self.chunks[i][j]);
                proof {
                    assert(self@[i as int].skip(j as int) =~= seq![self@[i as int][j as int]]
                        + self@[i as int].skip(j + 1));
                    assert(out@ + self@[i as int].skip(j + 1) + spec_flat(self@.skip(i + 1))
                        =~= prev + self@[i as int].skip(j as int) + spec_flat(self@.skip(i + 1)));
                }
                j += 1;
            }
            proof {
                assert(self@[i as int].skip(m as int) =~= Seq::<u8>::empty());
                assert(out@ + spec_flat(self@.skip(i + 1)) =~= self.flat());
            }
            i += 1;
        }
        proof {
            assert(self@.skip(n as int) =~= Seq::<Seq<u8>>::empty());
            assert(out@ =~= self.flat());
        }
        out
    }
}

/// The flat length of a chunk list is the sum of the chunk lengths, so a
/// suffix never exceeds the whole.
pub proof fn lemma_flat_len(chunks: Seq<Seq<u8>>)
    ensures
        spec_flat(chunks).len() >= 0,
        chunks.len() > 0 ==> spec_flat(chunks).len() == chunks[0].len() + spec_flat(
            chunks.skip(1),
        ).len(),
{
}

/// Extracts the family field at the head of a socket address structure,
/// stored in the machine's little-endian order.
///
/// Returns `None` exactly when the buffer is too short.
pub fn extract_family(buf: &[u8]) -> (r: Option<u16>)
    ensures
        match r {
            Some(f) => buf@.len() >= 2 && f == buf@[0] + buf@[1] * 256,
            None => buf@.len() < 2,
        },
{
    if buf.len() < 2 {
        return None;
    }
    Some((buf[0] as u16) + (buf[1] as u16) * 256)
}

/// An IPv4 socket address: family, port and address in wire order.
#[derive(Clone, Copy, Debug)]
pub struct SockAddrIn {
    /// The address family.
    pub sin_family: u16,
    /// The port, in network byte order.
    pub sin_port: u16,
    /// The destination address, in wire order.
    pub sin_addr: [u8; 4],
}

impl SockAddrIn {
    /// Reads the socket address from its userspace byte representation.
    ///
    /// Fails with `EINVAL` exactly when the buffer is shorter than the
    /// structure.
    pub fn from_bytes(buf: &[u8]) -> (r: Result<Self, Errno>)
        ensures
            match r {
                Ok(sa) => {
                    &&& buf@.len() >= 16
                    &&& sa.sin_family == buf@[0] + buf@[1] * 256
                    &&& sa.sin_port == buf@[2] * 256 + buf@[3]
                    &&& sa.sin_addr@ == seq![buf@[4], buf@[5], buf@[6], buf@[7]]
                },
                Err(e) => e == EINVAL && buf@.len() < 16,
            },
    {
        if buf.len() < 16 {
            return Err(EINVAL);
        }
        let sa = SockAddrIn {
            sin_family: (buf[0] as u16) + (buf[1] as u16) * 256,
            sin_port: (buf[2] as u16) * 256 + (buf[3] as u16),
            sin_addr: [buf[4], buf[5], buf[6], buf[7]],
        };
        proof {
            assert(sa.sin_addr@ =~= seq![buf@[4], buf@[5], buf@[6], buf@[7]]);
        }
        Ok(sa)
    }
}

/// The TCP segment header.
#[derive(Clone, Copy, Debug, PartialEq, Eq, Structural)]
pub struct TCPHdr {
    /// Source port.
    pub src_port: u16,
    /// Destination port.
    pub dst_port: u16,
    /// Sequence number.
    pub seq_nbr: u32,
    /// Acknowledgement number.
    pub ack_nbr: u32,
    /// The size of the header in units of 4 bytes, shifted into the high
    /// bits.
    pub data_offset: u8,
    /// The segment's flags.
    pub flags: u8,
    /// The advertised window size.
    pub win_size: u16,
    /// The segment's checksum.
    pub checksum: u16,
    /// The urgent pointer.
    pub urg_ptr: u16,
}

/// The big-endian bytes of a 16-bit word.
pub open spec fn spec_u16_be(x: u16) -> Seq<u8> {
    seq![(x / 256) as u8, (x % 256) as u8]
}

/// The bytes of an IPv4 header (RFC 791, no options) for the given
/// protocol, destination and total length, with a zero checksum field.
pub open spec fn spec_ipv4_header_zeroed(proto: u8, dst: Seq<u8>, total_len: u16) -> Seq<u8> {
    seq![0x45u8, 0u8] + spec_u16_be(total_len) + seq![0u8, 0u8, 0u8, 0u8, DEFAULT_TTL, proto]
        + seq![0u8, 0u8]  // checksum field
     + seq![0u8, 0u8, 0u8, 0u8]  // source: any
     + dst
}

/// The bytes of an IPv4 header with its checksum filled in.
pub open spec fn spec_ipv4_header(proto: u8, dst: Seq<u8>, total_len: u16) -> Seq<u8> {
    let zeroed = spec_ipv4_header_zeroed(proto, dst, total_len);
    let c = spec_rfc1071(zeroed);
    zeroed.update(10, (c / 256) as u8).update(11, (c % 256) as u8)
}

/// Builds the 20 bytes of an IPv4 header, checksum filled in, for the given
/// protocol, destination and total datagram length.
///
/// The produced header's checksum verifies: recomputing the checksum over
/// the whole header yields zero.
pub fn build_ipv4_header(proto: u8, dst: &[u8; 4], total_len: u16) -> (r: Vec<u8>)
    ensures
        r@ == spec_ipv4_header(proto, dst@, total_len),
        r@.len() == 20,
        spec_rfc1071(r@) == 0,
{
    let mut hdr: Vec<u8> = Vec::new();
    hdr.push(0x45);
    hdr.push(0);
    hdr.push((total_len / 256) as u8);
    hdr.push((total_len % 256) as u8);
    hdr.push(0);
    hdr.push(0);
    hdr.push(0);
    hdr.push(0);
    hdr.push(DEFAULT_TTL);
    hdr.push(proto);
    hdr.push(0);
    hdr.push(0);
    hdr.push(0);
    hdr.push(0);
    hdr.push(0);
    hdr.push(0);
    hdr.push(dst[0]);
    hdr.push(dst[1]);
    hdr.push(dst[2]);
    hdr.push(dst[3]);
    proof {
        assert(hdr@ =~= spec_ipv4_header_zeroed(proto, dst@, total_len));
    }
    let c = compute_rfc1071(hdr.as_slice());
    let ghost zeroed = hdr@;
    hdr.set(10, (c / 256) as u8);
    hdr.set(11, (c % 256) as u8);
    proof {
        assert(hdr@ =~= spec_ipv4_header(proto, dst@, total_len));
        lemma_checksum_roundtrip(zeroed, hdr@, 10);
    }
    hdr
}

/// Checks the checksum of an IPv4 header: correct exactly when the RFC 1071
/// sum over the header, checksum field included, is zero.
pub fn check_checksum(hdr: &[u8]) -> (r: bool)
    requires
        hdr@.len() <= 0x100000,
    ensures
        r == (spec_rfc1071(hdr@) == 0),
{
    compute_rfc1071(hdr) == 0
}

/// A builder for IPv4 packets.
#[derive(Clone, Copy, Debug)]
pub struct IPv4Builder {
    /// The protocol carried in the datagram.
    pub protocol: u8,
    /// The destination address, in wire order.
    pub dst_addr: [u8; 4],
}

/// The dummy layer: passes data through unchanged.
#[derive(Clone, Copy, Debug)]
pub struct DummyBuilder {}

/// A builder for TCP segments. The transport state machine is outside this
/// core: building segments is not supported.
#[derive(Clone, Copy, Debug)]
pub struct TCPBuilder {}

/// An object that wraps a packet according to one protocol layer.
pub trait TransmitBuilder: Sized {
    /// Creates the builder from a socket descriptor and the bytes of the
    /// socket address.
    fn build(desc: &SocketDesc, sockaddr: &[u8]) -> (r: Result<Self, Errno>);
}

impl IPv4Builder {
    /// Creates the IPv4 layer: the protocol comes from the descriptor, the
    /// destination from the address bytes.
    ///
    /// Fails with `EINVAL` exactly when the protocol does not fit eight
    /// bits or the address bytes are shorter than the structure.
    pub fn new(desc: &SocketDesc, sockaddr: &[u8]) -> (r: Result<Self, Errno>)
        ensures
            match r {
                Ok(b) => {
                    &&& desc.protocol <= 255
                    &&& sockaddr@.len() >= 16
                    &&& b.protocol == desc.protocol
                    &&& b.dst_addr@ == seq![sockaddr@[4], sockaddr@[5], sockaddr@[6], sockaddr@[7]]
                },
                Err(e) => e == EINVAL && (desc.protocol > 255 || sockaddr@.len() < 16),
            },
    {
        if desc.protocol > 255 {
            return Err(EINVAL);
        }
        let sa = SockAddrIn::from_bytes(sockaddr)?;
        Ok(IPv4Builder { protocol: desc.protocol as u8, dst_addr: sa.sin_addr })
    }
}

impl DummyBuilder {
    /// Creates the pass-through layer; never fails.
    pub fn new(_desc: &SocketDesc, _sockaddr: &[u8]) -> (r: Result<Self, Errno>)
        ensures
            r is Ok,
    {
        Ok(DummyBuilder {})
    }
}

impl TCPBuilder {
    /// The transport state machine is outside this core: always fails with
    /// `ENOTSUP`.
    pub fn new(_desc: &SocketDesc, _sockaddr: &[u8]) -> (r: Result<Self, Errno>)
        ensures
            r matches Err(e) && e == ENOTSUP,
    {
        Err(ENOTSUP)
    }
}

impl TransmitBuilder for IPv4Builder {
    fn build(desc: &SocketDesc, sockaddr: &[u8]) -> (r: Result<Self, Errno>) {
        IPv4Builder::new(desc, sockaddr)
    }
}

impl TransmitBuilder for DummyBuilder {
    fn build(desc: &SocketDesc, sockaddr: &[u8]) -> (r: Result<Self, Errno>) {
        DummyBuilder::new(desc, sockaddr)
    }
}

impl TransmitBuilder for TCPBuilder {
    fn build(desc: &SocketDesc, sockaddr: &[u8]) -> (r: Result<Self, Errno>) {
        TCPBuilder::new(desc, sockaddr)
    }
}

/// One layer of the pipeline.
#[derive(Clone, Copy, Debug)]
pub enum Layer {
    /// The IPv4 network layer.
    Ipv4(IPv4Builder),
    /// The pass-through layer.
    Dummy(DummyBuilder),
    /// The TCP transport layer (not supported).
    Tcp(TCPBuilder),
}

/// A pipeline used to build a packet: a linked list of layers called one
/// after the other, ending in the stage that hands the packet out.
pub enum TransmitPipeline {
    /// Wraps the data from the previous layer into a packet, then passes
    /// the result on.
    Wrap {
        /// The current layer.
        curr: Layer,
        /// The next layer.
        next: Box<TransmitPipeline>,
    },
    /// Hands the finished packet to the transmit queue.
    Flush,
}

/// The number of stages of a pipeline.
pub open spec fn spec_depth(p: TransmitPipeline) -> nat
    decreases p,
{
    match p {
        TransmitPipeline::Wrap { curr, next } => 1 + spec_depth(*next),
        TransmitPipeline::Flush => 0,
    }
}

/// The packet a pipeline delivers for the given payload, when every stage
/// succeeds.
pub open spec fn spec_transmit(p: TransmitPipeline, payload: Seq<u8>) -> Seq<u8>
    decreases p,
{
    match p {
        TransmitPipeline::Wrap { curr, next } => match curr {
            Layer::Ipv4(b) => spec_transmit(
                *next,
                spec_ipv4_header(b.protocol, b.dst_addr@, (20 + payload.len()) as u16) + payload,
            ),
            Layer::Dummy(_) => spec_transmit(*next, payload),
            Layer::Tcp(_) => payload,
        },
        TransmitPipeline::Flush => payload,
    }
}

/// Whether every stage of the pipeline can transmit: the TCP layer cannot,
/// and an IPv4 stage needs the datagram to fit a 16-bit length.
pub open spec fn spec_can_transmit(p: TransmitPipeline, payload_len: int) -> bool
    decreases p,
{
    match p {
        TransmitPipeline::Wrap { curr, next } => match curr {
            Layer::Ipv4(b) => 20 + payload_len <= 0xffff && spec_can_transmit(
                *next,
                20 + payload_len,
            ),
            Layer::Dummy(_) => spec_can_transmit(*next, payload_len),
            Layer::Tcp(_) => false,
        },
        TransmitPipeline::Flush => true,
    }
}

impl TransmitPipeline {
    /// Runs the pipeline on the given buffer list: each layer prepends its
    /// header, and the final stage pushes the finished packet onto the
    /// transmit queue `out`.
    ///
    /// Succeeds exactly when every stage can transmit; the queue then grows
    /// by the one delivered packet and nothing else changes.
    pub fn transmit(&self, buff: BuffList, out: &mut Vec<Vec<u8>>) -> (r: Result<(), Errno>)
        requires
            buff.flat().len() <= 0x10000,
        ensures
            match r {
                Ok(()) => {
                    &&& spec_can_transmit(*self, buff.flat().len() as int)
                    &&& final(out)@.len() == old(out)@.len() + 1
                    &&& forall|k: int| 0 <= k < old(out)@.len() ==> final(out)@[k] == old(out)@[k]
                    &&& final(out)@.last()@ == spec_transmit(*self, buff.flat())
                },
                Err(e) => {
                    &&& final(out)@ == old(out)@
                    &&& !spec_can_transmit(*self, buff.flat().len() as int)
                    &&& (e == EINVAL || e == ENOTSUP)
                },
            },
        decreases spec_depth(*self),
    {
        match self {
            TransmitPipeline::Flush => {
                let packet = buff.iter_bytes();
                out.push(packet);
                Ok(())
            }
            TransmitPipeline::Wrap { curr, next } => {
                match curr {
                    Layer::Ipv4(b) => {
                        let payload_len = buff.len();
                        if 20 + payload_len > 0xffff {
                            return Err(EINVAL);
                        }
                        let hdr = build_ipv4_header(
                            b.protocol,
                            &b.dst_addr,
                            (20 + payload_len) as u16,
                        );
                        let mut buff2 = buff;
                        buff2.push_front(hdr);
                        next.transmit(buff2, out)
                    }
                    Layer::Dummy(_) => next.transmit(buff, out),
                    Layer::Tcp(_) => Err(ENOTSUP),
                }
            }
        }
    }
}

/// Which builder a registry entry constructs.
#[derive(Clone, Copy, Debug, PartialEq, Eq, Structural)]
pub enum LayerCtor {
    /// Builds an IPv4 network layer.
    Ipv4,
    /// Builds a pass-through layer.
    Dummy,
    /// Builds a TCP transport layer.
    Tcp,
}

/// The process-wide registry of pipeline constructors: one map for the
/// network layers by domain, one for the transport layers by protocol, and
/// the default protocol of each domain and type pair.
pub struct OsiRegistry {
    /// Layer-3 constructors, by domain id.
    pub domains: Vec<(u32, LayerCtor)>,
    /// Layer-4 constructors, by protocol id.
    pub protocols: Vec<(u32, LayerCtor)>,
    /// Default protocol ids, by domain and socket type.
    pub default_protocols: Vec<((u32, u32), u32)>,
}

/// The first value bound to `key` in an association list.
pub open spec fn spec_assoc<K, V>(entries: Seq<(K, V)>, key: K) -> Option<V>
    decreases entries.len(),
{
    if entries.len() == 0 {
        Option::None
    } else if entries[0].0 == key {
        Option::Some(entries[0].1)
    } else {
        spec_assoc(entries.skip(1), key)
    }
}

/// Looks a constructor up by id.
fn assoc_ctor(entries: &Vec<(u32, LayerCtor)>, key: u32) -> (r: Option<LayerCtor>)
    ensures
        r == spec_assoc(entries@, key),
{
    let n = entries.len();
    let mut i: usize = 0;
    proof {
        assert(entries@.skip(0) =~= entries@);
    }
    while i < n
        invariant
            i <= n,
            n == entries@.len(),
            spec_assoc(entries@.skip(i as int), key) == spec_assoc(entries@, key),
        decreases n - i,
    {
        proof {
            assert(entries@.skip(i as int)[0] == entries@[i as int]);
            assert(entries@.skip(i as int).skip(1) =~= entries@.skip(i + 1));
        }
        if entries[i].0 == key {
            return Some(entries[i].1);
        }
        i += 1;
    }
    None
}

/// Looks a default protocol up by domain and socket type.
fn assoc_default(entries: &Vec<((u32, u32), u32)>, domain: u32, type_: u32) -> (r: Option<u32>)
    ensures
        r == spec_assoc(entries@, (domain, type_)),
{
    let n = entries.len();
    let mut i: usize = 0;
    proof {
        assert(entries@.skip(0) =~= entries@);
    }
    while i < n
        invariant
            i <= n,
            n == entries@.len(),
            spec_assoc(entries@.skip(i as int), (domain, type_)) == spec_assoc(
                entries@,
                (domain, type_),
            ),
        decreases n - i,
    {
        proof {
            assert(entries@.skip(i as int)[0] == entries@[i as int]);
            assert(entries@.skip(i as int).skip(1) =~= entries@.skip(i + 1));
        }
        if entries[i].0.0 == domain && entries[i].0.1 == type_ {
            return Some(entries[i].1);
        }
        i += 1;
    }
    None
}

/// The error a constructor raises for the given socket protocol and
/// address length, or `None` when it builds its layer.
pub open spec fn spec_ctor_err(ctor: LayerCtor, protocol: u32, salen: int) -> Option<Errno> {
    match ctor {
        LayerCtor::Tcp => Option::Some(ENOTSUP),
        LayerCtor::Dummy => Option::None,
        LayerCtor::Ipv4 => if protocol > 255 || salen < 16 {
            Option::Some(EINVAL)
        } else {
            Option::None
        },
    }
}

/// Whether `l` is the layer that `ctor` builds from the given socket
/// protocol and address bytes.
pub open spec fn spec_built_layer(l: Layer, ctor: LayerCtor, protocol: u32, sa: Seq<u8>) -> bool {
    match ctor {
        LayerCtor::Ipv4 => match l {
            Layer::Ipv4(b) => b.protocol == protocol && b.dst_addr@ == seq![
                sa[4],
                sa[5],
                sa[6],
                sa[7],
            ],
            _ => false,
        },
        LayerCtor::Dummy => l is Dummy,
        LayerCtor::Tcp => l is Tcp,
    }
}

/// The protocol id a pipeline is built for: the descriptor's own when it
/// is nonzero, else the registry's default for the domain and type.
pub open spec fn spec_chosen_protocol(registry: OsiRegistry, desc: SocketDesc) -> Option<u32> {
    if desc.protocol != 0 {
        Option::Some(desc.protocol)
    } else {
        spec_assoc(registry.default_protocols@, (desc.domain, desc.type_))
    }
}

/// The error building a transmit pipeline raises, or `None` when the
/// pipeline is built: the checks run in the order the stages are chosen.
pub open spec fn spec_pipeline_err(registry: OsiRegistry, desc: SocketDesc, salen: int) -> Option<
    Errno,
> {
    match spec_assoc(registry.domains@, desc.domain) {
        Option::None => Option::Some(EINVAL),
        Option::Some(c3) => match spec_ctor_err(c3, desc.protocol, salen) {
            Option::Some(e) => Option::Some(e),
            Option::None => match spec_chosen_protocol(registry, desc) {
                Option::None => Option::Some(EINVAL),
                Option::Some(pr) => match spec_assoc(registry.protocols@, pr) {
                    Option::None => Option::Some(EINVAL),
                    Option::Some(c4) => spec_ctor_err(c4, desc.protocol, salen),
                },
            },
        },
    }
}

/// Builds the layer a constructor stands for.
fn build_layer(ctor: LayerCtor, desc: &SocketDesc, sockaddr: &[u8]) -> (r: Result<Layer, Errno>)
    ensures
        match r {
            Ok(l) => spec_ctor_err(ctor, desc.protocol, sockaddr@.len() as int) is None
                && spec_built_layer(l, ctor, desc.protocol, sockaddr@),
            Err(e) => spec_ctor_err(ctor, desc.protocol, sockaddr@.len() as int)
                == Option::Some(e),
        },
{
    match ctor {
        LayerCtor::Ipv4 => {
            let b = IPv4Builder::new(desc, sockaddr)?;
            Ok(Layer::Ipv4(b))
        }
        LayerCtor::Dummy => {
            let b = DummyBuilder::new(desc, sockaddr)?;
            Ok(Layer::Dummy(b))
        }
        LayerCtor::Tcp => {
            let b = TCPBuilder::new(desc, sockaddr)?;
            Ok(Layer::Tcp(b))
        }
    }
}

/// Registers the default domains and protocols: IPv4 for the internet
/// domain, and the pass-through layer for ICMP.
pub fn init() -> (r: OsiRegistry)
    ensures
        r.domains@ == seq![(AF_INET, LayerCtor::Ipv4)],
        r.protocols@ == seq![(1u32, LayerCtor::Dummy)],
        r.default_protocols@ == Seq::<((u32, u32), u32)>::empty(),
{
    let mut domains: Vec<(u32, LayerCtor)> = Vec::new();
    domains.push((AF_INET, LayerCtor::Ipv4));
    let mut protocols: Vec<(u32, LayerCtor)> = Vec::new();
    protocols.push((1, LayerCtor::Dummy));
    let r = OsiRegistry { domains, protocols, default_protocols: Vec::new() };
    proof {
        assert(r.domains@ =~= seq![(AF_INET, LayerCtor::Ipv4)]);
        assert(r.protocols@ =~= seq![(1u32, LayerCtor::Dummy)]);
        assert(r.default_protocols@ =~= Seq::<((u32, u32), u32)>::empty());
    }
    r
}

impl TransmitPipeline {
    /// Creates a transmit pipeline for the given socket descriptor and
    /// socket address bytes: the domain's network layer, wrapped by the
    /// transport layer of the descriptor's protocol (or the domain default
    /// when the protocol is zero), ending in the transmit stage.
    ///
    /// Fails with `EINVAL` when the domain is unknown, when the protocol
    /// (explicit or defaulted) is unknown, or when a chosen layer rejects
    /// the arguments.
    pub fn new(desc: &SocketDesc, sockaddr: &[u8], registry: &OsiRegistry) -> (r: Result<
        TransmitPipeline,
        Errno,
    >)
        ensures
            match r {
                Ok(p) => {
                    &&& spec_pipeline_err(*registry, *desc, sockaddr@.len() as int) is None
                    &&& match p {
                        TransmitPipeline::Wrap { curr: l4, next: n1 } => match *n1 {
                            TransmitPipeline::Wrap { curr: l3, next: n2 } => {
                                &&& *n2 is Flush
                                &&& (spec_assoc(registry.domains@, desc.domain)
                                    matches Option::Some(c3) && spec_built_layer(
                                    l3,
                                    c3,
                                    desc.protocol,
                                    sockaddr@,
                                ))
                                &&& (spec_chosen_protocol(*registry, *desc)
                                    matches Option::Some(pr) && (spec_assoc(
                                    registry.protocols@,
                                    pr,
                                ) matches Option::Some(c4) && spec_built_layer(
                                    l4,
                                    c4,
                                    desc.protocol,
                                    sockaddr@,
                                )))
                            },
                            _ => false,
                        },
                        _ => false,
                    }
                },
                Err(e) => spec_pipeline_err(*registry, *desc, sockaddr@.len() as int)
                    == Option::Some(e),
            },
    {
        let domain_ctor = match assoc_ctor(&registry.domains, desc.domain) {
            Some(c) => c,
            None => {
                return Err(EINVAL);
            }
        };
        let l3 = build_layer(domain_ctor, desc, sockaddr)?;
        let protocol: u32 = if desc.protocol != 0 {
            desc.protocol
        } else {
            match assoc_default(&registry.default_protocols, desc.domain, desc.type_) {
                Some(p) => p,
                None => {
                    return Err(EINVAL);
                }
            }
        };
        let proto_ctor = match assoc_ctor(&registry.protocols, protocol) {
            Some(c) => c,
            None => {
                return Err(EINVAL);
            }
        };
        let l4 = build_layer(proto_ctor, desc, sockaddr)?;
        Ok(TransmitPipeline::Wrap {
            curr: l4,
            next: Box::new(TransmitPipeline::Wrap {
                curr: l3,
                next: Box::new(TransmitPipeline::Flush),
            }),
        })
    }
}

} // verus!
