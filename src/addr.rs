//! Internet addresses (IPv4, IPv6, Tor v2 and Tor v3) and their uniform
//! fixed-width binary encodings.

use vstd::prelude::*;

use crate::onion::{
    ascii_lowercase, ascii_lowercase_of, base32_of, base32_text, check_tor_v3_key, onion_host,
    onion_v2_bytes_of_text, onion_v3_key_of_text, onion_v3_text, onion_v3_text_of, parse_onion_v2,
    parse_onion_v3, tor_v3_key_valid,
};

verus! {

/// Errors while decoding an address from its byte forms.
#[derive(Clone, Copy, Debug, PartialEq, Eq, Structural, PartialOrd, Ord, Hash)]
pub enum UniformEncodingError {
    /// The byte string has a length that no address form has
    WrongLength(usize),
    /// The byte string holds no recognisable address
    InvalidFormat,
}

/// A universal internet address: IPv4, IPv6, Tor v2 (the raw 10-byte onion
/// identifier) or Tor v3 (the 32-byte service public key).
///
/// The variants are declared from the lowest to the highest in the order of
/// addresses: Tor v3 < Tor v2 < IPv6 < IPv4; within a variant, payload bytes
/// compare lexicographically.
#[derive(Clone, Copy, Debug, PartialEq, Eq, Ord, Hash)]
pub enum InetAddr {
    /// Tor v3 onion service public key
    Tor([u8; 32]),
    /// Tor v2 onion service identifier
    TorV2([u8; 10]),
    /// IP address of V6 standard
    IPv6([u8; 16]),
    /// IP address of V4 standard
    IPv4([u8; 4]),
}

/// The uniform-encoding tag of an address' case.
pub open spec fn addr_tag(a: InetAddr) -> u8 {
    match a {
        InetAddr::IPv4(_) => 0,
        InetAddr::IPv6(_) => 1,
        InetAddr::TorV2(_) => 2,
        InetAddr::Tor(_) => 3,
    }
}

/// The native bytes that an address holds.
pub open spec fn addr_payload(a: InetAddr) -> Seq<u8> {
    match a {
        InetAddr::IPv4(o) => o@,
        InetAddr::IPv6(o) => o@,
        InetAddr::TorV2(o) => o@,
        InetAddr::Tor(k) => k@,
    }
}

/// `n` zero bytes.
pub open spec fn zeros(n: nat) -> Seq<u8> {
    Seq::new(n, |i: int| 0u8)
}

/// The 33-byte uniform encoding: the tag, then the payload right-aligned
/// behind zero padding.
pub open spec fn uniform_addr(a: InetAddr) -> Seq<u8> {
    seq![addr_tag(a)] + zeros((32 - addr_payload(a).len()) as nat) + addr_payload(a)
}

/// `s` is 33 bytes long and carries the tag and the payload of `a` (the
/// padding bytes are not read).
pub open spec fn carries_addr(s: Seq<u8>, a: InetAddr) -> bool {
    &&& s.len() == 33
    &&& s[0] == addr_tag(a)
    &&& s.subrange(33 - addr_payload(a).len(), 33) == addr_payload(a)
}

/// `s` is a uniform encoding that decodes: 33 bytes, a known tag, and for Tor
/// v3 a valid service key.
pub open spec fn uniform_decodable(s: Seq<u8>) -> bool {
    &&& s.len() == 33
    &&& s[0] <= 2 || (s[0] == 3 && tor_v3_key_valid(s.subrange(1, 33)))
}

/// What decoding the uniform encoding `s` gives.
pub open spec fn uniform_decode(s: Seq<u8>) -> Option<InetAddr> {
    if uniform_decodable(s) {
        Some(choose|a: InetAddr| carries_addr(s, a))
    } else {
        None
    }
}

/// The rank of an address' case in the order of addresses.
pub open spec fn addr_rank(a: InetAddr) -> int {
    match a {
        InetAddr::Tor(_) => 0,
        InetAddr::TorV2(_) => 1,
        InetAddr::IPv6(_) => 2,
        InetAddr::IPv4(_) => 3,
    }
}

/// `a` comes before `b` in lexicographic byte order: at the first position
/// where they differ, `a` holds the smaller byte.
pub open spec fn bytes_less(a: Seq<u8>, b: Seq<u8>) -> bool {
    exists|i: int|
        0 <= i < a.len() && i < b.len() && #[trigger] a[i] < b[i] && forall|j: int|
            0 <= j < i ==> a[j] == b[j]
}

/// Lexicographic comparison of two byte strings of equal length.
pub open spec fn bytes_cmp(a: Seq<u8>, b: Seq<u8>) -> core::cmp::Ordering {
    if a == b {
        core::cmp::Ordering::Equal
    } else if bytes_less(a, b) {
        core::cmp::Ordering::Less
    } else {
        core::cmp::Ordering::Greater
    }
}

/// The order of addresses: by case (Tor v3, Tor v2, IPv6, IPv4), then by
/// payload bytes.
pub open spec fn addr_cmp(a: InetAddr, b: InetAddr) -> core::cmp::Ordering {
    if addr_rank(a) < addr_rank(b) {
        core::cmp::Ordering::Less
    } else if addr_rank(a) > addr_rank(b) {
        core::cmp::Ordering::Greater
    } else {
        bytes_cmp(addr_payload(a), addr_payload(b))
    }
}

/// Two different byte strings of equal length, equal before position `k`,
/// first differ at some position at or after `k`.
proof fn lemma_first_difference(x: Seq<u8>, y: Seq<u8>, k: int) -> (i: int)
    requires
        x.len() == y.len(),
        x != y,
        0 <= k <= x.len(),
        forall|j: int| 0 <= j < k ==> x[j] == y[j],
    ensures
        k <= i < x.len(),
        x[i] != y[i],
        forall|j: int| 0 <= j < i ==> x[j] == y[j],
    decreases x.len() - k,
{
    if k == x.len() {
        assert(x =~= y);
        k
    } else if x[k] != y[k] {
        k
    } else {
        lemma_first_difference(x, y, k + 1)
    }
}

/// Lexicographic order on byte strings of equal length is a strict total
/// order: of two different strings exactly one comes first, and it is
/// transitive.
pub proof fn lemma_bytes_order(x: Seq<u8>, y: Seq<u8>, z: Seq<u8>)
    requires
        x.len() == y.len(),
        y.len() == z.len(),
    ensures
        x != y ==> (bytes_less(x, y) <==> !bytes_less(y, x)),
        x == y ==> !bytes_less(x, y),
        bytes_less(x, y) && bytes_less(y, z) ==> bytes_less(x, z),
{
    if x != y {
        let i = lemma_first_difference(x, y, 0);
        if x[i] < y[i] {
            assert(bytes_less(x, y));
        } else {
            assert(bytes_less(y, x));
        }
        if bytes_less(x, y) && bytes_less(y, x) {
            let a = choose|a: int|
                0 <= a < x.len() && a < y.len() && #[trigger] x[a] < y[a] && forall|j: int|
                    0 <= j < a ==> x[j] == y[j];
            let b = choose|b: int|
                0 <= b < y.len() && b < x.len() && #[trigger] y[b] < x[b] && forall|j: int|
                    0 <= j < b ==> y[j] == x[j];
            if a < b {
                assert(y[a] == x[a]);
            } else if b < a {
                assert(x[b] == y[b]);
            }
        }
    }
    if bytes_less(x, y) && bytes_less(y, z) {
        let a = choose|a: int|
            0 <= a < x.len() && a < y.len() && #[trigger] x[a] < y[a] && forall|j: int|
                0 <= j < a ==> x[j] == y[j];
        let b = choose|b: int|
            0 <= b < y.len() && b < z.len() && #[trigger] y[b] < z[b] && forall|j: int|
                0 <= j < b ==> y[j] == z[j];
        if a <= b {
            assert(x[a] < z[a]);
            assert(forall|j: int| 0 <= j < a ==> x[j] == z[j]);
        } else {
            assert(x[b] == y[b]);
            assert(x[b] < z[b]);
            assert(forall|j: int| 0 <= j < b ==> x[j] == z[j]);
        }
    }
}

/// The order of addresses is a total order: two addresses compare equal
/// exactly when they are equal, swapping them reverses the comparison, and it
/// is transitive.
pub proof fn lemma_addr_order_total(a: InetAddr, b: InetAddr, c: InetAddr)
    ensures
        addr_cmp(a, b) == core::cmp::Ordering::Equal <==> a == b,
        addr_cmp(a, b) == core::cmp::Ordering::Less <==> addr_cmp(b, a)
            == core::cmp::Ordering::Greater,
        addr_cmp(a, b) == core::cmp::Ordering::Less && addr_cmp(b, c) == core::cmp::Ordering::Less
            ==> addr_cmp(a, c) == core::cmp::Ordering::Less,
{
    let (pa, pb, pc) = (addr_payload(a), addr_payload(b), addr_payload(c));
    if addr_rank(a) == addr_rank(b) {
        lemma_bytes_order(pa, pb, pb);
        lemma_bytes_order(pb, pa, pa);
        if pa == pb {
            let s = uniform_addr(a);
            assert(uniform_addr(b) =~= s);
            assert(s.subrange(33 - pa.len(), 33) =~= pa);
            assert(s.subrange(33 - pb.len(), 33) =~= pb);
            lemma_carries_unique(s, a, b);
        }
    }
    if addr_rank(a) == addr_rank(b) && addr_rank(b) == addr_rank(c) {
        lemma_bytes_order(pa, pb, pc);
    }
}

/// Compares two byte strings of equal length lexicographically.
fn compare_bytes(a: &[u8], b: &[u8]) -> (r: core::cmp::Ordering)
    requires
        a@.len() == b@.len(),
    ensures
        r == bytes_cmp(a@, b@),
{
    let mut i: usize = 0;
    while i < a.len()
        invariant
            a@.len() == b@.len(),
            i <= a@.len(),
            forall|j: int| 0 <= j < i ==> a@[j] == b@[j],
        decreases a@.len() - i,
    {
        if a[i] < b[i] {
            assert(bytes_less(a@, b@));
            assert(a@ != b@);
            return core::cmp::Ordering::Less;
        }
        if a[i] > b[i] {
            assert(a@[i as int] != b@[i as int]);
            assert(!bytes_less(a@, b@));
            return core::cmp::Ordering::Greater;
        }
        i = i + 1;
    }
    assert(a@ =~= b@);
    core::cmp::Ordering::Equal
}

impl PartialOrd for InetAddr {
    fn partial_cmp(&self, other: &InetAddr) -> (r: Option<core::cmp::Ordering>)
        ensures
            r == Some(addr_cmp(*self, *other)),
    {
        match (self, other) {
            (InetAddr::IPv4(x), InetAddr::IPv4(y)) => Some(compare_bytes(x, y)),
            (InetAddr::IPv6(x), InetAddr::IPv6(y)) => Some(compare_bytes(x, y)),
            (InetAddr::TorV2(x), InetAddr::TorV2(y)) => Some(compare_bytes(x, y)),
            (InetAddr::Tor(x), InetAddr::Tor(y)) => Some(compare_bytes(x, y)),
            (InetAddr::IPv4(_), _) => Some(core::cmp::Ordering::Greater),
            (_, InetAddr::IPv4(_)) => Some(core::cmp::Ordering::Less),
            (InetAddr::IPv6(_), _) => Some(core::cmp::Ordering::Greater),
            (_, InetAddr::IPv6(_)) => Some(core::cmp::Ordering::Less),
            (InetAddr::TorV2(_), _) => Some(core::cmp::Ordering::Greater),
            (_, InetAddr::TorV2(_)) => Some(core::cmp::Ordering::Less),
        }
    }
}

impl vstd::std_specs::cmp::PartialOrdSpecImpl for InetAddr {
    open spec fn obeys_partial_cmp_spec() -> bool {
        true
    }

    open spec fn partial_cmp_spec(&self, other: &InetAddr) -> Option<core::cmp::Ordering> {
        Some(addr_cmp(*self, *other))
    }
}

/// A byte string determines the address that it carries.
pub proof fn lemma_carries_unique(s: Seq<u8>, a: InetAddr, b: InetAddr)
    requires
        carries_addr(s, a),
        carries_addr(s, b),
    ensures
        a == b,
{
    match (a, b) {
        (InetAddr::IPv4(x), InetAddr::IPv4(y)) => {
            assert(x =~= y) by { assert(forall|i: int| 0 <= i < 4 ==> x@[i] == s[29 + i]); }
        }
        (InetAddr::IPv6(x), InetAddr::IPv6(y)) => {
            assert(x =~= y) by { assert(forall|i: int| 0 <= i < 16 ==> x@[i] == s[17 + i]); }
        }
        (InetAddr::TorV2(x), InetAddr::TorV2(y)) => {
            assert(x =~= y) by { assert(forall|i: int| 0 <= i < 10 ==> x@[i] == s[23 + i]); }
        }
        (InetAddr::Tor(x), InetAddr::Tor(y)) => {
            assert(x =~= y) by { assert(forall|i: int| 0 <= i < 32 ==> x@[i] == s[1 + i]); }
        }
        _ => {}
    }
}

/// Copies `N` bytes of `data`, starting at `from`, into an array.
fn take_bytes<const N: usize>(data: &[u8], from: usize) -> (r: [u8; N])
    requires
        from + N <= data.len(),
    ensures
        r@ == data@.subrange(from as int, from + N),
{
    let mut r = [0u8; N];
    let mut i: usize = 0;
    while i < N
        invariant
            from + N <= data.len(),
            i <= N,
            r@.len() == N,
            forall|j: int| 0 <= j < i ==> r@[j] == data@[from + j],
        decreases N - i,
    {
        r[i] = data[from + i];
        i = i + 1;
    }
    assert(r@ =~= data@.subrange(from as int, from + N));
    r
}

/// Writes `src` into `buf` at offset `at`.
fn put_bytes<const M: usize, const N: usize>(buf: &mut [u8; M], at: usize, src: &[u8; N])
    requires
        at + N <= M,
    ensures
        final(buf)@ == old(buf)@.subrange(0, at as int) + src@ + old(buf)@.subrange(
            at + N,
            M as int,
        ),
{
    let mut i: usize = 0;
    while i < N
        invariant
            at + N <= M,
            i <= N,
            buf@.len() == M,
            forall|j: int| 0 <= j < at ==> buf@[j] == old(buf)@[j],
            forall|j: int| at + N <= j < M ==> buf@[j] == old(buf)@[j],
            forall|j: int| at <= j < at + i ==> buf@[j] == src@[j - at],
        decreases N - i,
    {
        buf[at + i] = src[i];
        i = i + 1;
    }
    assert(buf@ =~= old(buf)@.subrange(0, at as int) + src@ + old(buf)@.subrange(
        at + N,
        M as int,
    ));
}

impl InetAddr {
    /// Length of the uniform encoding of an address.
    pub const UNIFORM_ADDR_LEN: usize = 33;

    /// An address is well formed when a Tor v3 key is a valid service key.
    pub open spec fn wf(self) -> bool {
        self matches InetAddr::Tor(k) ==> tor_v3_key_valid(k@)
    }

    /// Encodes the address into its fixed-width uniform form: the tag, then
    /// the payload right-aligned behind zero padding.
    pub fn to_uniform_encoding(&self) -> (r: [u8; 33])
        ensures
            r@ == uniform_addr(*self),
    {
        let mut buf = [0u8; 33];
        match self {
            InetAddr::IPv4(o) => {
                buf[0] = 0;
                put_bytes(&mut buf, 29, o);
            },
            InetAddr::IPv6(o) => {
                buf[0] = 1;
                put_bytes(&mut buf, 17, o);
            },
            InetAddr::TorV2(o) => {
                buf[0] = 2;
                put_bytes(&mut buf, 23, o);
            },
            InetAddr::Tor(k) => {
                buf[0] = 3;
                put_bytes(&mut buf, 1, k);
            },
        }
        assert(buf@ =~= uniform_addr(*self));
        buf
    }

    /// Decodes the uniform encoding of an address; `None` on a wrong length,
    /// an unknown tag, or a Tor v3 key that is not a valid service key.
    pub fn from_uniform_encoding(data: &[u8]) -> (r: Option<InetAddr>)
        ensures
            r == uniform_decode(data@),
            r matches Some(a) ==> a.wf(),
    {
        if data.len() != 33 {
            return None;
        }
        let tag = data[0];
        let r = if tag == 0 {
            InetAddr::IPv4(take_bytes(data, 29))
        } else if tag == 1 {
            InetAddr::IPv6(take_bytes(data, 17))
        } else if tag == 2 {
            InetAddr::TorV2(take_bytes(data, 23))
        } else if tag == 3 {
            let k: [u8; 32] = take_bytes(data, 1);
            if !check_tor_v3_key(&k) {
                return None;
            }
            InetAddr::Tor(k)
        } else {
            return None;
        };
        proof {
            assert(carries_addr(data@, r));
            assert(uniform_decodable(data@));
            let c = choose|a: InetAddr| carries_addr(data@, a);
            lemma_carries_unique(data@, r, c);
        }
        Some(r)
    }
}

/// Decoding an encoded well-formed address gives the address back.
pub proof fn lemma_addr_round_trip(a: InetAddr)
    requires
        a.wf(),
    ensures
        uniform_decode(uniform_addr(a)) == Some(a),
{
    let s = uniform_addr(a);
    assert(carries_addr(s, a)) by {
        assert(s.subrange(33 - addr_payload(a).len(), 33) =~= addr_payload(a));
    }
    if let InetAddr::Tor(k) = a {
        assert(s.subrange(1, 33) =~= k@);
    }
    assert(uniform_decodable(s));
    let c = choose|b: InetAddr| carries_addr(s, b);
    lemma_carries_unique(s, a, c);
}

/// Byte 0 of the encoding is the tag, the tag tells the case, and two
/// different addresses never share an encoding.
pub proof fn lemma_addr_tag_discrimination(a: InetAddr, b: InetAddr)
    ensures
        uniform_addr(a)[0] == addr_tag(a),
        addr_tag(a) == 0 <==> a is IPv4,
        addr_tag(a) == 1 <==> a is IPv6,
        addr_tag(a) == 2 <==> a is TorV2,
        addr_tag(a) == 3 <==> a is Tor,
        a != b ==> uniform_addr(a) != uniform_addr(b),
{
    if uniform_addr(a) == uniform_addr(b) {
        let s = uniform_addr(a);
        assert(s.subrange(33 - addr_payload(a).len(), 33) =~= addr_payload(a));
        assert(uniform_addr(b).subrange(33 - addr_payload(b).len(), 33) =~= addr_payload(b));
        lemma_carries_unique(s, a, b);
    }
}

impl Default for InetAddr {
    /// The unspecified IPv4 address 0.0.0.0.
    fn default() -> (r: InetAddr)
        ensures
            r matches InetAddr::IPv4(o) && o@ == zeros(4),
    {
        let o = [0u8; 4];
        assert(o@ =~= zeros(4));
        InetAddr::IPv4(o)
    }
}

impl InetAddr {
    /// Returns the IPv6 form of an IP address (an IPv4 address as its
    /// IPv4-mapped IPv6 address `::ffff:a.b.c.d`); `None` for a Tor address.
    pub fn to_ipv6(&self) -> (r: Option<[u8; 16]>)
        ensures
            match *self {
                InetAddr::IPv4(o) => r matches Some(v) && v@ == zeros(10) + seq![0xffu8, 0xffu8]
                    + o@,
                InetAddr::IPv6(o) => r == Some(o),
                _ => r is None,
            },
    {
        match self {
            InetAddr::IPv4(o) => {
                let mut v = [0u8; 16];
                v[10] = 0xff;
                v[11] = 0xff;
                put_bytes(&mut v, 12, o);
                assert(v@ =~= zeros(10) + seq![0xffu8, 0xffu8] + o@);
                Some(v)
            },
            InetAddr::IPv6(o) => Some(*o),
            _ => None,
        }
    }

    /// Returns the octets of an IPv4 address, or `None` for any other case.
    pub fn to_ipv4(&self) -> (r: Option<[u8; 4]>)
        ensures
            r == (match *self {
                InetAddr::IPv4(o) => Some(o),
                _ => None,
            }),
    {
        match self {
            InetAddr::IPv4(o) => Some(*o),
            _ => None,
        }
    }

    /// Determines whether the address is a Tor (v2 or v3) address.
    pub fn is_tor(&self) -> (r: bool)
        ensures
            r == (*self is Tor || *self is TorV2),
    {
        match self {
            InetAddr::Tor(_) | InetAddr::TorV2(_) => true,
            _ => false,
        }
    }

    /// Returns the Tor v2 onion identifier, if the address is one.
    pub fn to_onion_v2(&self) -> (r: Option<[u8; 10]>)
        ensures
            r == (match *self {
                InetAddr::TorV2(o) => Some(o),
                _ => None,
            }),
    {
        match self {
            InetAddr::TorV2(o) => Some(*o),
            _ => None,
        }
    }

    /// Returns the Tor v3 service public key, if the address is one.
    pub fn to_onion(&self) -> (r: Option<[u8; 32]>)
        ensures
            r == (match *self {
                InetAddr::Tor(k) => Some(k),
                _ => None,
            }),
    {
        match self {
            InetAddr::Tor(k) => Some(*k),
            _ => None,
        }
    }

    /// Reads an address from its native bytes: 4 for IPv4, 16 for IPv6 and
    /// 32 for a Tor v3 key, which must be a valid service key.
    pub fn from_bytes(value: &[u8]) -> (r: Result<InetAddr, UniformEncodingError>)
        ensures
            value@.len() == 4 ==> (r matches Ok(InetAddr::IPv4(o)) && o@ == value@),
            value@.len() == 16 ==> (r matches Ok(InetAddr::IPv6(o)) && o@ == value@),
            value@.len() == 32 && tor_v3_key_valid(value@) ==> (r matches Ok(InetAddr::Tor(k))
                && k@ == value@),
            value@.len() == 32 && !tor_v3_key_valid(value@) ==> r == Err::<
                InetAddr,
                UniformEncodingError,
            >(UniformEncodingError::InvalidFormat),
            value@.len() != 4 && value@.len() != 16 && value@.len() != 32 ==> r == Err::<
                InetAddr,
                UniformEncodingError,
            >(UniformEncodingError::WrongLength(value@.len() as usize)),
    {
        let len = value.len();
        if len == 4 {
            Ok(InetAddr::IPv4(take_bytes(value, 0)))
        } else if len == 16 {
            Ok(InetAddr::IPv6(take_bytes(value, 0)))
        } else if len == 32 {
            let k: [u8; 32] = take_bytes(value, 0);
            assert(value@.subrange(0, 32) =~= value@);
            if check_tor_v3_key(&k) {
                Ok(InetAddr::Tor(k))
            } else {
                Err(UniformEncodingError::InvalidFormat)
            }
        } else {
            Err(UniformEncodingError::WrongLength(len))
        }
    }
}

/// Transport-level protocols that may be part of an extended socket address.
#[derive(Clone, Copy, Debug, PartialEq, Eq, Structural, PartialOrd, Ord, Hash)]
pub enum Transport {
    /// Normal TCP
    Tcp,
    /// Normal UDP
    Udp,
    /// Multipath TCP
    Mtcp,
    /// QUIC, an efficient protocol over UDP
    Quic,
}

/// The one-byte code of a transport in the uniform encoding.
pub open spec fn transport_code(t: Transport) -> u8 {
    match t {
        Transport::Tcp => 1,
        Transport::Udp => 2,
        Transport::Mtcp => 3,
        Transport::Quic => 4,
    }
}

/// The transport whose code is `b`, if any.
pub open spec fn transport_of_code(b: u8) -> Option<Transport> {
    if b == 1 {
        Some(Transport::Tcp)
    } else if b == 2 {
        Some(Transport::Udp)
    } else if b == 3 {
        Some(Transport::Mtcp)
    } else if b == 4 {
        Some(Transport::Quic)
    } else {
        None
    }
}

/// The lower-case name of a transport.
pub open spec fn transport_name(t: Transport) -> Seq<char> {
    match t {
        Transport::Tcp => "tcp"@,
        Transport::Udp => "udp"@,
        Transport::Mtcp => "mtcp"@,
        Transport::Quic => "quic"@,
    }
}

/// The transport whose lower-case name is `n`, if any.
pub open spec fn transport_of_name(n: Seq<char>) -> Option<Transport> {
    if n == "tcp"@ {
        Some(Transport::Tcp)
    } else if n == "udp"@ {
        Some(Transport::Udp)
    } else if n == "mtcp"@ {
        Some(Transport::Mtcp)
    } else if n == "quic"@ {
        Some(Transport::Quic)
    } else {
        None
    }
}

/// The lower-case form of a text, as `str::to_lowercase` gives it.
pub uninterp spec fn lowercase_of(s: Seq<char>) -> Seq<char>;

/// Relies on `str::to_lowercase`: the result depends on the characters alone,
/// and on ASCII text it lowers `A` to `Z` and keeps the rest.
#[verifier::external_body]
fn lowercase(s: &str) -> (r: String)
    ensures
        r@ == lowercase_of(s@),
        (forall|i: int| 0 <= i < s@.len() ==> (s@[i] as u32) < 128) ==> r@ == ascii_lowercase_of(
            s@,
        ),
{
    s.to_lowercase()
}

/// Whether two texts hold the same characters.
pub(crate) fn same_text(a: &str, b: &str) -> (r: bool)
    ensures
        r == (a@ == b@),
{
    let n = a.unicode_len();
    if n != b.unicode_len() {
        return false;
    }
    let mut i: usize = 0;
    while i < n
        invariant
            n == a@.len(),
            n == b@.len(),
            i <= n,
            forall|j: int| 0 <= j < i ==> a@[j] == b@[j],
        decreases n - i,
    {
        if a.get_char(i) != b.get_char(i) {
            return false;
        }
        i = i + 1;
    }
    assert(a@ =~= b@);
    true
}

impl Transport {
    /// Decodes the one-byte uniform encoding of a transport; `None` for a byte
    /// that codes no transport.
    pub fn from_uniform_encoding(data: u8) -> (r: Option<Transport>)
        ensures
            r == transport_of_code(data),
            r is Some <==> 1 <= data <= 4,
    {
        match data {
            1 => Some(Transport::Tcp),
            2 => Some(Transport::Udp),
            3 => Some(Transport::Mtcp),
            4 => Some(Transport::Quic),
            _ => None,
        }
    }

    /// Encodes the transport as a single byte.
    pub fn to_uniform_encoding(&self) -> (r: u8)
        ensures
            r == transport_code(*self),
            1 <= r <= 4,
    {
        match self {
            Transport::Tcp => 1,
            Transport::Udp => 2,
            Transport::Mtcp => 3,
            Transport::Quic => 4,
        }
    }

    /// The transport named by an already lower-cased text.
    pub fn from_lowercase_name(name: &str) -> (r: Option<Transport>)
        ensures
            r == transport_of_name(name@),
    {
        if same_text(name, "tcp") {
            Some(Transport::Tcp)
        } else if same_text(name, "udp") {
            Some(Transport::Udp)
        } else if same_text(name, "mtcp") {
            Some(Transport::Mtcp)
        } else if same_text(name, "quic") {
            Some(Transport::Quic)
        } else {
            None
        }
    }

    /// Parses a transport name, ignoring case.
    pub fn from_name(s: &str) -> (r: Result<Transport, AddrParseError>)
        ensures
            match transport_of_name(lowercase_of(s@)) {
                Some(t) => r == Ok::<Transport, AddrParseError>(t),
                None => r matches Err(AddrParseError::UnknownProtocolError(e)) && e@ == s@,
            },
            (forall|i: int| 0 <= i < s@.len() ==> (s@[i] as u32) < 128) ==> lowercase_of(s@)
                == ascii_lowercase_of(s@),
    {
        let lower = lowercase(s);
        match Transport::from_lowercase_name(lower.as_str()) {
            Some(t) => Ok(t),
            None => Err(AddrParseError::UnknownProtocolError(s.to_string())),
        }
    }

    /// The lower-case name of the transport.
    pub fn to_string(&self) -> (r: String)
        ensures
            r@ == transport_name(*self),
    {
        match self {
            Transport::Tcp => "tcp".to_string(),
            Transport::Udp => "udp".to_string(),
            Transport::Mtcp => "mtcp".to_string(),
            Transport::Quic => "quic".to_string(),
        }
    }
}

impl Default for Transport {
    /// TCP.
    fn default() -> (r: Transport)
        ensures
            r == Transport::Tcp,
    {
        Transport::Tcp
    }
}

impl std::str::FromStr for Transport {
    type Err = AddrParseError;

    fn from_str(s: &str) -> Result<Transport, AddrParseError> {
        Transport::from_name(s)
    }
}

/// Errors while parsing addresses from text.
#[derive(Clone, Debug, PartialEq, Eq, PartialOrd, Ord, Hash)]
pub enum AddrParseError {
    /// Wrong port number; must be a 16-bit unsigned integer number
    WrongPortNumber,
    /// No IPv4, IPv6 or Tor v2/v3 address, or more than one, reads from the text
    WrongAddrFormat(String),
    /// Wrong format of a socket address text; use `<inet_address>[:<port>]`
    WrongSocketFormat(String),
    /// Wrong format of an extended socket address text; use
    /// `<transport>://<inet_address>[:<port>]`
    WrongSocketExtFormat(String),
    /// Unknown transport protocol
    UnknownProtocolError(String),
    /// Tor addresses are not supported
    NeedsTorFeature,
}

/// The address holds a Tor address where only IP addresses are supported.
#[derive(Clone, Copy, Debug, PartialEq, Eq, Structural, PartialOrd, Ord, Hash)]
pub struct NoOnionSupportError;

/// Internet socket address: an [`InetAddr`] and a port, without a transport
/// protocol (see [`InetSocketAddrExt`]).
#[derive(Clone, Copy, Debug, PartialEq, Eq, PartialOrd, Ord, Hash)]
pub struct InetSocketAddr {
    /// Address part of the socket
    pub address: InetAddr,
    /// Port of the socket
    pub port: u16,
}

/// The two big-endian bytes of a port.
pub open spec fn port_bytes(port: u16) -> Seq<u8> {
    seq![(port / 256) as u8, (port % 256) as u8]
}

/// The 35-byte uniform encoding of a socket address: the address, then the
/// port in big-endian order.
pub open spec fn uniform_socket(s: InetSocketAddr) -> Seq<u8> {
    uniform_addr(s.address) + port_bytes(s.port)
}

/// What decoding the uniform socket encoding `s` gives.
pub open spec fn socket_decode(s: Seq<u8>) -> Option<InetSocketAddr> {
    if s.len() == 35 && uniform_decode(s.subrange(0, 33)) is Some {
        Some(
            InetSocketAddr {
                address: uniform_decode(s.subrange(0, 33))->0,
                port: (s[33] * 256 + s[34]) as u16,
            },
        )
    } else {
        None
    }
}

impl Default for InetSocketAddr {
    /// The address 0.0.0.0 with port 0.
    fn default() -> (r: InetSocketAddr)
        ensures
            r.address matches InetAddr::IPv4(o) && o@ == zeros(4),
            r.port == 0,
    {
        InetSocketAddr { address: InetAddr::default(), port: 0 }
    }
}

impl InetSocketAddr {
    /// Length of the uniform encoding of a socket address.
    pub const UNIFORM_ADDR_LEN: usize = 35;

    /// A socket address is well formed when its address is.
    pub open spec fn wf(self) -> bool {
        self.address.wf()
    }

    /// Constructs a socket address from an internet address and a port.
    pub fn new(address: InetAddr, port: u16) -> (r: InetSocketAddr)
        ensures
            r == (InetSocketAddr { address, port }),
    {
        InetSocketAddr { address, port }
    }

    /// Determines whether the address part is a Tor address.
    pub fn is_tor(&self) -> (r: bool)
        ensures
            r == (self.address is Tor || self.address is TorV2),
    {
        self.address.is_tor()
    }

    /// Encodes the socket address into its fixed-width uniform form.
    pub fn to_uniform_encoding(&self) -> (r: [u8; 35])
        ensures
            r@ == uniform_socket(*self),
    {
        let mut buf = [0u8; 35];
        let a = self.address.to_uniform_encoding();
        put_bytes(&mut buf, 0, &a);
        buf[33] = (self.port / 256) as u8;
        buf[34] = (self.port % 256) as u8;
        assert(buf@ =~= uniform_socket(*self));
        buf
    }

    /// Decodes the uniform encoding of a socket address; `None` on a wrong
    /// length or an address part that does not decode.
    pub fn from_uniform_encoding(data: &[u8]) -> (r: Option<InetSocketAddr>)
        ensures
            r == socket_decode(data@),
            r matches Some(s) ==> s.wf(),
    {
        if data.len() != 35 {
            return None;
        }
        let a: [u8; 33] = take_bytes(data, 0);
        let address = match InetAddr::from_uniform_encoding(&a) {
            Some(address) => address,
            None => return None,
        };
        let port = (data[33] as u16) * 256 + (data[34] as u16);
        Some(InetSocketAddr { address, port })
    }
}

/// Decoding an encoded well-formed socket address gives it back.
pub proof fn lemma_socket_round_trip(s: InetSocketAddr)
    requires
        s.wf(),
    ensures
        socket_decode(uniform_socket(s)) == Some(s),
{
    let e = uniform_socket(s);
    assert(e.subrange(0, 33) =~= uniform_addr(s.address));
    lemma_addr_round_trip(s.address);
    assert((e[33] * 256 + e[34]) as u16 == s.port);
}

/// Internet socket address extended with a transport-level protocol.
#[derive(Clone, Copy, Debug, PartialEq, Eq, PartialOrd, Ord, Hash)]
pub struct InetSocketAddrExt(
    /// Transport-level protocol (TCP, UDP and the like)
    pub Transport,
    /// The socket address: internet address and port
    pub InetSocketAddr,
);

/// The 36-byte uniform encoding of an extended socket address: the transport
/// code, then the socket address.
pub open spec fn uniform_socket_ext(e: InetSocketAddrExt) -> Seq<u8> {
    seq![transport_code(e.0)] + uniform_socket(e.1)
}

/// What decoding the uniform extended socket encoding `s` gives.
pub open spec fn socket_ext_decode(s: Seq<u8>) -> Option<InetSocketAddrExt> {
    if s.len() == 36 && transport_of_code(s[0]) is Some && socket_decode(s.subrange(1, 36)) is Some {
        Some(InetSocketAddrExt(transport_of_code(s[0])->0, socket_decode(s.subrange(1, 36))->0))
    } else {
        None
    }
}

impl Default for InetSocketAddrExt {
    /// TCP on 0.0.0.0 with port 0.
    fn default() -> (r: InetSocketAddrExt)
        ensures
            r.0 == Transport::Tcp,
            r.1.address matches InetAddr::IPv4(o) && o@ == zeros(4),
            r.1.port == 0,
    {
        InetSocketAddrExt(Transport::Tcp, InetSocketAddr::default())
    }
}

impl InetSocketAddrExt {
    /// Length of the uniform encoding of an extended socket address.
    pub const UNIFORM_ADDR_LEN: usize = 36;

    /// An extended socket address is well formed when its address is.
    pub open spec fn wf(self) -> bool {
        self.1.wf()
    }

    /// A TCP socket address.
    pub fn tcp(address: InetAddr, port: u16) -> (r: InetSocketAddrExt)
        ensures
            r == InetSocketAddrExt(Transport::Tcp, InetSocketAddr { address, port }),
    {
        InetSocketAddrExt(Transport::Tcp, InetSocketAddr::new(address, port))
    }

    /// A UDP socket address.
    pub fn udp(address: InetAddr, port: u16) -> (r: InetSocketAddrExt)
        ensures
            r == InetSocketAddrExt(Transport::Udp, InetSocketAddr { address, port }),
    {
        InetSocketAddrExt(Transport::Udp, InetSocketAddr::new(address, port))
    }

    /// Encodes the extended socket address into its fixed-width uniform form.
    pub fn to_uniform_encoding(&self) -> (r: [u8; 36])
        ensures
            r@ == uniform_socket_ext(*self),
    {
        let mut buf = [0u8; 36];
        buf[0] = self.0.to_uniform_encoding();
        let s = self.1.to_uniform_encoding();
        put_bytes(&mut buf, 1, &s);
        assert(buf@ =~= uniform_socket_ext(*self));
        buf
    }

    /// Decodes the uniform encoding of an extended socket address; `None` on a
    /// wrong length, an unknown transport code or a socket part that does not
    /// decode.
    pub fn from_uniform_encoding(data: &[u8]) -> (r: Option<InetSocketAddrExt>)
        ensures
            r == socket_ext_decode(data@),
            r matches Some(e) ==> e.wf(),
    {
        if data.len() != 36 {
            return None;
        }
        let transport = match Transport::from_uniform_encoding(data[0]) {
            Some(t) => t,
            None => return None,
        };
        let s: [u8; 35] = take_bytes(data, 1);
        match InetSocketAddr::from_uniform_encoding(&s) {
            Some(socket) => Some(InetSocketAddrExt(transport, socket)),
            None => None,
        }
    }
}

/// Decoding an encoded well-formed extended socket address gives it back.
pub proof fn lemma_socket_ext_round_trip(e: InetSocketAddrExt)
    requires
        e.wf(),
    ensures
        socket_ext_decode(uniform_socket_ext(e)) == Some(e),
{
    let s = uniform_socket_ext(e);
    assert(s.subrange(1, 36) =~= uniform_socket(e.1));
    lemma_socket_round_trip(e.1);
}

/// The uniform encodings have fixed widths: 33 bytes for an address, 35 for a
/// socket address and 36 for an extended socket address.
pub proof fn lemma_uniform_widths(a: InetAddr, s: InetSocketAddr, e: InetSocketAddrExt)
    ensures
        uniform_addr(a).len() == InetAddr::UNIFORM_ADDR_LEN,
        uniform_socket(s).len() == InetSocketAddr::UNIFORM_ADDR_LEN,
        uniform_socket_ext(e).len() == InetSocketAddrExt::UNIFORM_ADDR_LEN,
{
}

/// Drops a trailing `.onion` from a text.
pub fn strip_onion_suffix(s: &str) -> (r: &str)
    ensures
        r@ == onion_host(s@),
{
    let n = s.unicode_len();
    if n >= 6 {
        let tail = s.substring_char(n - 6, n);
        if same_text(tail, ".onion") {
            return s.substring_char(0, n - 6);
        }
    }
    s
}

/// The text reads as a Tor v3 onion address with a valid service key.
pub open spec fn reads_as_onion_v3(s: Seq<char>) -> bool {
    onion_v3_key_of_text(onion_host(s)) matches Some(k) && tor_v3_key_valid(k)
}

/// The text reads as a Tor v2 onion address.
pub open spec fn reads_as_onion_v2(s: Seq<char>) -> bool {
    onion_v2_bytes_of_text(onion_host(s)) is Some
}

/// How many of the candidate readings of an address text are present.
pub open spec fn candidate_count(
    ip: Option<InetAddr>,
    onion_v3: Option<InetAddr>,
    onion_v2: Option<InetAddr>,
) -> int {
    (if ip is Some { 1int } else { 0 }) + (if onion_v3 is Some { 1int } else { 0 }) + (
    if onion_v2 is Some { 1int } else { 0 })
}

/// Chooses the reading of an address text among its candidate readings (as
/// an IP address, a Tor v3 and a Tor v2 onion address): exactly one must be
/// present, else the text is rejected as ambiguous or unreadable.
pub fn pick_address(
    s: &str,
    ip: Option<InetAddr>,
    onion_v3: Option<InetAddr>,
    onion_v2: Option<InetAddr>,
) -> (r: Result<InetAddr, AddrParseError>)
    ensures
        candidate_count(ip, onion_v3, onion_v2) == 1 && ip is Some ==> r == Ok::<
            InetAddr,
            AddrParseError,
        >(ip->0),
        candidate_count(ip, onion_v3, onion_v2) == 1 && onion_v3 is Some ==> r == Ok::<
            InetAddr,
            AddrParseError,
        >(onion_v3->0),
        candidate_count(ip, onion_v3, onion_v2) == 1 && onion_v2 is Some ==> r == Ok::<
            InetAddr,
            AddrParseError,
        >(onion_v2->0),
        candidate_count(ip, onion_v3, onion_v2) != 1 ==> (r matches Err(
            AddrParseError::WrongAddrFormat(e),
        ) && e@ == s@),
{
    match (ip, onion_v3, onion_v2) {
        (Some(a), None, None) => Ok(a),
        (None, Some(a), None) => Ok(a),
        (None, None, Some(a)) => Ok(a),
        _ => Err(AddrParseError::WrongAddrFormat(s.to_string())),
    }
}

/// What parsing the text `s` gives, where `ip` is its reading as an IP
/// address: exactly one reading must be present. A text that reads as an
/// onion address has the length of one, without `.onion`.
pub open spec fn parse_result(
    s: Seq<char>,
    ip: Option<InetAddr>,
    r: Result<InetAddr, AddrParseError>,
) -> bool {
    let n = (if ip is Some { 1int } else { 0 }) + (if reads_as_onion_v3(s) {
        1int
    } else {
        0
    }) + (if reads_as_onion_v2(s) { 1int } else { 0 });
    &&& n == 1 && ip is Some ==> r == Ok::<InetAddr, AddrParseError>(ip->0)
    &&& n == 1 && reads_as_onion_v3(s) ==> (r matches Ok(InetAddr::Tor(k)) && Some(k@)
        == onion_v3_key_of_text(onion_host(s)))
    &&& n == 1 && reads_as_onion_v2(s) ==> (r matches Ok(InetAddr::TorV2(o)) && Some(o@)
        == onion_v2_bytes_of_text(onion_host(s)))
    &&& n != 1 ==> (r matches Err(AddrParseError::WrongAddrFormat(e)) && e@ == s)
    &&& reads_as_onion_v3(s) ==> onion_host(s).len() == 56
    &&& reads_as_onion_v2(s) ==> onion_host(s).len() == 16
}

/// What the text of a Tor address is: `None` for an IP address and for a Tor
/// v3 key that is not a valid service key; else a text that reads as an
/// onion address of the same version carrying the same bytes.
pub open spec fn tor_text_result(a: InetAddr, r: Option<Seq<char>>) -> bool {
    match a {
        InetAddr::Tor(k) => if tor_v3_key_valid(k@) {
            &&& r matches Some(t) && t == onion_v3_text_of(k@)
            &&& r matches Some(t) && reads_as_onion_v3(t)
            &&& r matches Some(t) && onion_v3_key_of_text(onion_host(t)) == Some(k@)
            &&& r matches Some(t) && onion_host(t).len() == 56
        } else {
            r is None
        },
        InetAddr::TorV2(o) => {
            &&& r matches Some(t) && t == ascii_lowercase_of(base32_of(o@)) + ".onion"@
            &&& r matches Some(t) && reads_as_onion_v2(t)
            &&& r matches Some(t) && onion_v2_bytes_of_text(onion_host(t)) == Some(o@)
            &&& r matches Some(t) && onion_host(t).len() == 16
        },
        _ => r is None,
    }
}

/// Parsing the text of a Tor address gives the address back: `t` is the text
/// of `a`, and `r` what parsing `t` gives, with no reading of `t` as an IP
/// address.
pub proof fn lemma_tor_text_round_trip(a: InetAddr, t: Seq<char>, r: Result<InetAddr, AddrParseError>)
    requires
        tor_text_result(a, Some(t)),
        parse_result(t, None, r),
    ensures
        r == Ok::<InetAddr, AddrParseError>(a),
{
    match a {
        InetAddr::Tor(k) => {
            if let Ok(InetAddr::Tor(k2)) = r {
                assert(k2 =~= k);
            }
        },
        InetAddr::TorV2(o) => {
            if let Ok(InetAddr::TorV2(o2)) = r {
                assert(o2 =~= o);
            }
        },
        _ => {},
    }
}

impl InetAddr {
    /// Parses an address text, given `ip`, what the text reads as an IP
    /// address. The text may also read as a Tor v3 or v2 onion address, with
    /// or without its `.onion` suffix; a Tor v3 reading counts only when its
    /// key is a valid service key, so an onion text with a good checksum over
    /// a key that is no Ed25519 point is rejected. A text that reads as none
    /// of them, or as more than one, is rejected.
    pub fn parse_with_ip(s: &str, ip: Option<InetAddr>) -> (r: Result<InetAddr, AddrParseError>)
        ensures
            parse_result(s@, ip, r),
            (ip matches Some(x) ==> x.wf()) ==> (r matches Ok(a) ==> a.wf()),
    {
        let host = strip_onion_suffix(s);
        let onion_v3 = match parse_onion_v3(host) {
            Some(k) => {
                if check_tor_v3_key(&k) {
                    Some(InetAddr::Tor(k))
                } else {
                    None
                }
            },
            None => None,
        };
        let onion_v2 = match parse_onion_v2(host) {
            Some(o) => Some(InetAddr::TorV2(o)),
            None => None,
        };
        pick_address(s, ip, onion_v3, onion_v2)
    }

    /// The canonical text of a Tor address, `<base32>.onion` in lower case:
    /// of the service key for Tor v3 and of the raw identifier for Tor v2.
    /// `None` for an IP address, whose text is that of `std::net`, and for a
    /// Tor v3 key that is not a valid service key. The text reads back as
    /// the address (see `lemma_tor_text_round_trip`).
    pub fn tor_text(&self) -> (r: Option<String>)
        ensures
            tor_text_result(
                *self,
                match r {
                    Some(t) => Some(t@),
                    None => None,
                },
            ),
    {
        match self {
            InetAddr::Tor(k) => {
                if check_tor_v3_key(k) {
                    Some(onion_v3_text(k))
                } else {
                    None
                }
            },
            InetAddr::TorV2(o) => {
                let b = base32_text(o);
                let mut t = ascii_lowercase(b.as_str());
                t.append(".onion");
                proof {
                    reveal_strlit(".onion");
                    let l = ascii_lowercase_of(b@);
                    assert(t@.subrange(t@.len() - 6, t@.len() as int) =~= ".onion"@);
                    assert(t@.subrange(0, t@.len() - 6) =~= l);
                }
                Some(t)
            },
            _ => None,
        }
    }
}

/// The text holds no `:`.
pub open spec fn colon_free(s: Seq<char>) -> bool {
    forall|i: int| 0 <= i < s.len() ==> s[i] != ':'
}

/// The text holds exactly one `:`, at position `k`.
pub open spec fn single_colon_at(s: Seq<char>, k: int) -> bool {
    &&& 0 <= k < s.len()
    &&& s[k] == ':'
    &&& colon_free(s.subrange(0, k))
    &&& colon_free(s.subrange(k + 1, s.len() as int))
}

/// Splits a socket address text `<address>[:<port>]` at its colon. A text
/// with no colon, or with two or more (a bare IPv6 address), is all address,
/// without a port.
pub fn split_socket_text(s: &str) -> (r: (&str, Option<&str>))
    ensures
        forall|k: int|
            single_colon_at(s@, k) ==> r.0@ == s@.subrange(0, k) && (r.1 matches Some(p) && p@
                == s@.subrange(k + 1, s@.len() as int)),
        !(exists|k: int| single_colon_at(s@, k)) ==> (r.0@ == s@ && r.1 is None),
{
    let n = s.unicode_len();
    let mut k: usize = 0;
    while k < n && s.get_char(k) != ':'
        invariant
            n == s@.len(),
            k <= n,
            forall|j: int| 0 <= j < k ==> s@[j] != ':',
        decreases n - k,
    {
        k = k + 1;
    }
    if k == n {
        proof {
            assert forall|m: int| !single_colon_at(s@, m) by {
                if single_colon_at(s@, m) {
                    assert(s@[m] != ':');
                }
            }
        }
        return (s, None);
    }
    let mut j: usize = k + 1;
    while j < n
        invariant
            n == s@.len(),
            k < j <= n,
            s@[k as int] == ':',
            forall|i: int| 0 <= i < k ==> s@[i] != ':',
            forall|i: int| k < i < j ==> s@[i] != ':',
        decreases n - j,
    {
        if s.get_char(j) == ':' {
            proof {
                assert forall|m: int| !single_colon_at(s@, m) by {
                    if single_colon_at(s@, m) {
                        if m < k {
                            assert(s@[m] != ':');
                        } else if m == k {
                            assert(s@.subrange(k + 1, s@.len() as int)[j - k - 1] == ':');
                        } else {
                            assert(s@.subrange(0, m)[k as int] == ':');
                        }
                    }
                }
            }
            return (s, None);
        }
        j = j + 1;
    }
    let a = s.substring_char(0, k);
    let p = s.substring_char(k + 1, n);
    proof {
        assert(single_colon_at(s@, k as int));
        assert forall|m: int| single_colon_at(s@, m) implies m == k by {
            if m < k {
                assert(s@[m] != ':');
            } else if m > k {
                assert(s@.subrange(0, m)[k as int] == ':');
            }
        }
    }
    (a, Some(p))
}

/// The value of a text of decimal digits.
pub open spec fn decimal_value(s: Seq<char>) -> int
    decreases s.len(),
{
    if s.len() == 0 {
        0
    } else {
        decimal_value(s.drop_last()) * 10 + ((s.last() as u32) as int - 48)
    }
}

/// The text is made of decimal digits only.
pub open spec fn all_digits(s: Seq<char>) -> bool {
    forall|i: int| 0 <= i < s.len() ==> '0' <= #[trigger] s[i] <= '9'
}

/// The port that a text gives: an optional `+`, then decimal digits whose
/// value fits in 16 bits.
pub open spec fn port_of_text(s: Seq<char>) -> Option<u16> {
    let d = if s.len() > 0 && s[0] == '+' {
        s.drop_first()
    } else {
        s
    };
    if d.len() > 0 && all_digits(d) && decimal_value(d) <= 65535 {
        Some(decimal_value(d) as u16)
    } else {
        None
    }
}

/// A text of digits has a value of at least 0, and at least that of each of
/// its prefixes.
proof fn lemma_decimal_prefix(d: Seq<char>, m: int)
    requires
        0 <= m <= d.len(),
        all_digits(d),
    ensures
        0 <= decimal_value(d.subrange(0, m)) <= decimal_value(d),
    decreases d.len(),
{
    if d.len() > 0 {
        let p = d.drop_last();
        assert(all_digits(p)) by {
            assert forall|i: int| 0 <= i < p.len() implies '0' <= #[trigger] p[i] <= '9' by {
                assert(p[i] == d[i]);
            }
        }
        assert('0' <= d[d.len() - 1] <= '9');
        if m < d.len() {
            lemma_decimal_prefix(p, m);
            assert(p.subrange(0, m) =~= d.subrange(0, m));
        } else {
            lemma_decimal_prefix(p, p.len() as int);
            assert(p.subrange(0, p.len() as int) =~= p);
        }
        assert(d.subrange(0, d.len() as int) =~= d);
    } else {
        assert(d.subrange(0, m) =~= d);
    }
}

/// Reads a port number: an optional `+`, then decimal digits whose value
/// fits in 16 bits (as `u16::from_str` reads it).
fn read_port(s: &str) -> (r: Option<u16>)
    ensures
        r == port_of_text(s@),
{
    let n = s.unicode_len();
    let start: usize = if n > 0 && s.get_char(0) == '+' {
        1
    } else {
        0
    };
    let ghost d = if s@.len() > 0 && s@[0] == '+' {
        s@.drop_first()
    } else {
        s@
    };
    assert(d =~= s@.subrange(start as int, n as int));
    if start == n {
        return None;
    }
    let mut value: u32 = 0;
    let mut i: usize = start;
    while i < n
        invariant
            start <= i <= n,
            n == s@.len(),
            d == s@.subrange(start as int, n as int),
            d == (if s@.len() > 0 && s@[0] == '+' {
                s@.drop_first()
            } else {
                s@
            }),
            all_digits(d.subrange(0, i - start)),
            value as int == decimal_value(d.subrange(0, i - start)),
            value <= 65535,
        decreases n - i,
    {
        let c = s.get_char(i);
        if c < '0' || c > '9' {
            assert(d[i - start] == c);
            return None;
        }
        proof {
            let q = d.subrange(0, i - start + 1);
            assert(q.drop_last() =~= d.subrange(0, i - start));
            assert(q.last() == c);
            assert(all_digits(q)) by {
                assert forall|j: int| 0 <= j < q.len() implies '0' <= #[trigger] q[j] <= '9' by {
                    if j < q.len() - 1 {
                        assert(q[j] == d.subrange(0, i - start)[j]);
                    }
                }
            }
        }
        value = value * 10 + (c as u32 - 48);
        assert(value as int == decimal_value(d.subrange(0, i - start + 1)));
        if value > 65535 {
            proof {
                if all_digits(d) {
                    lemma_decimal_prefix(d, i - start + 1);
                }
            }
            return None;
        }
        i = i + 1;
    }
    assert(d.subrange(0, i - start) =~= d);
    Some(value as u16)
}

impl InetSocketAddr {
    /// A socket address from an address and the text of its port; without a
    /// port text the port is 0.
    pub fn with_port_text(address: InetAddr, port: Option<&str>) -> (r: Result<
        InetSocketAddr,
        AddrParseError,
    >)
        ensures
            match port {
                None => r == Ok::<InetSocketAddr, AddrParseError>(InetSocketAddr { address, port: 0 }),
                Some(p) => match port_of_text(p@) {
                    Some(v) => r == Ok::<InetSocketAddr, AddrParseError>(
                        InetSocketAddr { address, port: v },
                    ),
                    None => r == Err::<InetSocketAddr, AddrParseError>(
                        AddrParseError::WrongPortNumber,
                    ),
                },
            },
    {
        match port {
            None => Ok(InetSocketAddr { address, port: 0 }),
            Some(p) => match read_port(p) {
                Some(v) => Ok(InetSocketAddr { address, port: v }),
                None => Err(AddrParseError::WrongPortNumber),
            },
        }
    }
}

/// The separator `://` stands at position `k` of the text.
pub open spec fn scheme_separator_at(s: Seq<char>, k: int) -> bool {
    0 <= k && k + 3 <= s.len() && s[k] == ':' && s[k + 1] == '/' && s[k + 2] == '/'
}

/// The separator `://` stands at position `k` of the text, and nowhere else.
pub open spec fn unique_separator_at(s: Seq<char>, k: int) -> bool {
    &&& scheme_separator_at(s, k)
    &&& forall|m: int| #[trigger] scheme_separator_at(s, m) ==> m == k
}

/// Splits an extended socket address text `<transport>://<socket>` at its
/// separator. A text without the separator, or with more than one, is
/// rejected.
pub fn split_socket_ext_text(s: &str) -> (r: Result<(&str, &str), AddrParseError>)
    ensures
        forall|k: int| #[trigger]
            unique_separator_at(s@, k) ==> (r matches Ok((t, a)) && t@ == s@.subrange(0, k) && a@
                == s@.subrange(k + 3, s@.len() as int)),
        !(exists|k: int| unique_separator_at(s@, k)) ==> (r matches Err(
            AddrParseError::WrongSocketExtFormat(e),
        ) && e@ == s@),
{
    let n = s.unicode_len();
    let mut k: usize = 0;
    while 3 <= n - k && !separator_at(s, k)
        invariant
            k <= n,
            n == s@.len(),
            forall|m: int| 0 <= m < k ==> !scheme_separator_at(s@, m),
        decreases n - k,
    {
        k = k + 1;
    }
    if n - k < 3 {
        proof {
            assert forall|m: int| !unique_separator_at(s@, m) by {
                if m >= k {
                    assert(m + 3 > n);
                }
            }
        }
        return Err(AddrParseError::WrongSocketExtFormat(s.to_string()));
    }
    let mut j: usize = k + 1;
    while 3 <= n - j && !separator_at(s, j)
        invariant
            k < j <= n,
            n == s@.len(),
            scheme_separator_at(s@, k as int),
            forall|m: int| 0 <= m < k ==> !scheme_separator_at(s@, m),
            forall|m: int| k < m < j ==> !scheme_separator_at(s@, m),
        decreases n - j,
    {
        j = j + 1;
    }
    if 3 <= n - j {
        proof {
            assert forall|m: int| !unique_separator_at(s@, m) by {
                if unique_separator_at(s@, m) {
                    assert(m == k);
                    assert(j == m);
                }
            }
        }
        return Err(AddrParseError::WrongSocketExtFormat(s.to_string()));
    }
    proof {
        assert forall|m: int| scheme_separator_at(s@, m) implies m == k by {
            if m > k {
                assert(m >= j);
                assert(m + 3 > n);
            }
        }
        assert(unique_separator_at(s@, k as int));
    }
    Ok((s.substring_char(0, k), s.substring_char(k + 3, n)))
}

/// Whether the separator `://` stands at position `k`.
fn separator_at(s: &str, k: usize) -> (r: bool)
    requires
        k + 3 <= s@.len() <= usize::MAX,
    ensures
        r == scheme_separator_at(s@, k as int),
{
    s.get_char(k) == ':' && s.get_char(k + 1) == '/' && s.get_char(k + 2) == '/'
}

} // verus!
