//! Decisions of the seccomp supervisor behind the localhost-only network
//! policy: which `connect` calls may proceed, and the answer to the kernel.
use vstd::prelude::*;

verus! {

/// A seccomp user notification (`struct seccomp_notif`).
#[derive(Debug, Clone, Copy)]
pub struct SeccompNotif {
    pub id: u64,
    pub pid: u32,
    pub flags: u32,
    pub data: SeccompData,
}

/// The system call a notification is about (`struct seccomp_data`).
#[derive(Debug, Clone, Copy)]
pub struct SeccompData {
    pub nr: i32,
    pub arch: u32,
    pub instruction_pointer: u64,
    pub args: [u64; 6],
}

/// The answer to a notification (`struct seccomp_notif_resp`).
#[derive(Debug, Clone, Copy)]
pub struct SeccompNotifResp {
    pub id: u64,
    pub val: i64,
    pub error: i32,
    pub flags: u32,
}

/// Unix domain sockets.
pub const AF_UNIX: u16 = 1;
/// IPv4.
pub const AF_INET: u16 = 2;
/// IPv6.
pub const AF_INET6: u16 = 10;

/// Lets the kernel carry out the call (Linux 5.5 and later).
pub const SECCOMP_USER_NOTIF_FLAG_CONTINUE: u32 = 1;

/// The two bytes read as a little-endian number.
pub open spec fn le_u16(b0: u8, b1: u8) -> u16 {
    (b0 as int + 256 * (b1 as int)) as u16
}

/// The two bytes read as a big-endian number.
pub open spec fn be_u16(b0: u8, b1: u8) -> u16 {
    (256 * (b0 as int) + b1 as int) as u16
}

/// `u16::from_ne_bytes`: the two bytes read in the machine's byte order,
/// which is little- or big-endian; which one is not stated.
#[verifier::external_body]
fn u16_from_ne_bytes(b0: u8, b1: u8) -> (res: u16)
    ensures
        res == le_u16(b0, b1) || res == be_u16(b0, b1),
{
    u16::from_ne_bytes([b0, b1])
}

/// The address family of a socket address: its first two bytes in the
/// machine's byte order; none when it is shorter.
pub fn sockaddr_family(sockaddr: &[u8]) -> (res: Option<u16>)
    ensures
        sockaddr@.len() < 2 ==> res is None,
        sockaddr@.len() >= 2 ==> (res == Some(le_u16(sockaddr@[0], sockaddr@[1])) || res == Some(be_u16(sockaddr@[0], sockaddr@[1]))),
{
    if sockaddr.len() < 2 {
        return None;
    }
    Some(u16_from_ne_bytes(sockaddr[0], sockaddr[1]))
}

/// The two bytes read in the given byte order.
pub open spec fn u16_in(b0: u8, b1: u8, little_endian: bool) -> u16 {
    if little_endian { le_u16(b0, b1) } else { be_u16(b0, b1) }
}

/// The address family of a socket address, its first two bytes read in the
/// given byte order (the machine's, which the caller knows); none when it is
/// shorter.
pub fn sockaddr_family_in(sockaddr: &[u8], little_endian: bool) -> (res: Option<u16>)
    ensures
        sockaddr@.len() < 2 ==> res is None,
        sockaddr@.len() >= 2 ==> res == Some(u16_in(sockaddr@[0], sockaddr@[1], little_endian)),
{
    if sockaddr.len() < 2 {
        return None;
    }
    let (lo, hi) = if little_endian { (sockaddr[0], sockaddr[1]) } else { (sockaddr[1], sockaddr[0]) };
    Some((lo as u16) + (hi as u16) * 256)
}

/// Whether a socket address of the given family is a loopback address:
/// IPv4 `127.x.x.x` (byte 4 is 127, the address complete), or IPv6 `::1`
/// (bytes 8 to 22 zero and byte 23 one).
pub open spec fn loopback_for(family: u16, s: Seq<u8>) -> bool {
    if family == AF_INET {
        s.len() >= 8 && s[4] == 127
    } else if family == AF_INET6 {
        s.len() >= 24 && (forall|i: int| 8 <= i < 23 ==> s[i] == 0) && s[23] == 1
    } else {
        false
    }
}

/// Whether a socket address of the given family is a loopback address
/// (see [`loopback_for`]).
pub fn is_loopback_for_family(family: u16, sockaddr: &[u8]) -> (res: bool)
    ensures
        res == loopback_for(family, sockaddr@),
{
    if family == AF_INET {
        sockaddr.len() >= 8 && sockaddr[4] == 127
    } else if family == AF_INET6 {
        if sockaddr.len() < 24 {
            return false;
        }
        let mut i: usize = 8;
        while i < 23
            invariant
                8 <= i <= 23,
                family == AF_INET6,
                sockaddr@.len() >= 24,
                forall|t: int| 8 <= t < i ==> sockaddr@[t] == 0,
            decreases 23 - i,
        {
            if sockaddr[i] != 0 {
                return false;
            }
            i = i + 1;
        }
        sockaddr[23] == 1
    } else {
        false
    }
}

/// Whether a socket address is a loopback address (see [`loopback_for`]),
/// its family read in the machine's byte order.
pub fn is_localhost_address(sockaddr: &[u8]) -> (res: bool)
    ensures
        sockaddr@.len() < 2 ==> !res,
        sockaddr@.len() >= 2 ==> (res == loopback_for(le_u16(sockaddr@[0], sockaddr@[1]), sockaddr@)
            || res == loopback_for(be_u16(sockaddr@[0], sockaddr@[1]), sockaddr@)),
{
    match sockaddr_family(sockaddr) {
        Some(family) => is_loopback_for_family(family, sockaddr),
        None => false,
    }
}

/// Whether a socket address is a Unix domain address, its family read in
/// the machine's byte order.
pub fn is_unix_socket(sockaddr: &[u8]) -> (res: bool)
    ensures
        sockaddr@.len() < 2 ==> !res,
        sockaddr@.len() >= 2 ==> (res == (le_u16(sockaddr@[0], sockaddr@[1]) == AF_UNIX)
            || res == (be_u16(sockaddr@[0], sockaddr@[1]) == AF_UNIX)),
{
    match sockaddr_family(sockaddr) {
        Some(family) => is_unix_family(family),
        None => false,
    }
}

/// Whether an address family is that of Unix domain sockets.
pub fn is_unix_family(family: u16) -> (res: bool)
    ensures
        res == (family == AF_UNIX),
{
    family == AF_UNIX
}

/// Whether a connection to an address of the given family may proceed: a
/// Unix domain socket, or a loopback address.
pub open spec fn connect_allowed(family: u16, s: Seq<u8>) -> bool {
    family == AF_UNIX || loopback_for(family, s)
}

/// Whether a connection to the address `sockaddr`, whose family is
/// `family`, may proceed (see [`connect_allowed`]).
pub fn connect_allowed_for(family: u16, sockaddr: &[u8]) -> (res: bool)
    ensures
        res == connect_allowed(family, sockaddr@),
{
    is_unix_family(family) || is_loopback_for_family(family, sockaddr)
}

/// Whether a `connect` may proceed, given the address read from the
/// caller's memory (none when it could not be read): Unix domain and
/// loopback addresses may, anything else, or an unreadable address, may not.
pub fn validate_connect(sockaddr: Option<&[u8]>) -> (res: bool)
    ensures
        match sockaddr {
            None => !res,
            Some(s) => s@.len() < 2 ==> !res,
        },
        sockaddr is Some && sockaddr.unwrap()@.len() >= 2 ==> ({
            let s = sockaddr.unwrap()@;
            ||| res == connect_allowed(le_u16(s[0], s[1]), s)
            ||| res == connect_allowed(be_u16(s[0], s[1]), s)
        }),
{
    match sockaddr {
        Some(s) => match sockaddr_family(s) {
            Some(family) => connect_allowed_for(family, s),
            None => false,
        },
        None => false,
    }
}

/// Whether a `connect` may proceed (see [`connect_allowed`]), given the
/// address read from the caller's memory (none when it could not be read)
/// and the machine's byte order.
pub open spec fn connect_verdict(sockaddr: Option<Seq<u8>>, little_endian: bool) -> bool {
    match sockaddr {
        Some(s) => s.len() >= 2 && connect_allowed(u16_in(s[0], s[1], little_endian), s),
        None => false,
    }
}

/// Whether a `connect` may proceed, its address's family read in the given
/// byte order (see [`connect_verdict`]).
pub fn validate_connect_in(sockaddr: Option<&[u8]>, little_endian: bool) -> (res: bool)
    ensures
        res == connect_verdict(match sockaddr { Some(s) => Some(s@), None => None }, little_endian),
{
    match sockaddr {
        Some(s) => match sockaddr_family_in(s, little_endian) {
            Some(family) => connect_allowed_for(family, s),
            None => false,
        },
        None => false,
    }
}

/// The family bytes of a socket address say `family` in the given byte order.
pub open spec fn family_bytes(s: Seq<u8>, little_endian: bool, family: u16) -> bool {
    s.len() >= 2 && if little_endian {
        s[0] as int == family as int % 256 && s[1] as int == family as int / 256
    } else {
        s[0] as int == family as int / 256 && s[1] as int == family as int % 256
    }
}

proof fn lemma_family_bytes(s: Seq<u8>, little_endian: bool, family: u16)
    requires
        family_bytes(s, little_endian, family),
    ensures
        u16_in(s[0], s[1], little_endian) == family,
{
    assert(le_u16(s[0], s[1]) == (s[0] as int + 256 * (s[1] as int)) as u16);
    assert(be_u16(s[0], s[1]) == (256 * (s[0] as int) + s[1] as int) as u16);
}

/// Which connections the localhost-only policy lets through, by the bytes of
/// the address: every Unix domain socket; an IPv4 address exactly when it is
/// complete (8 bytes) and its first address byte (byte 4) is 127, whatever
/// the port; an IPv6 address exactly when it is complete (24 bytes) and is
/// `::1`; no other family. An unreadable or too short address is refused.
pub proof fn law_connect_verdict_by_bytes(s: Seq<u8>, little_endian: bool)
    ensures
        family_bytes(s, little_endian, 1) ==> connect_verdict(Some(s), little_endian),
        family_bytes(s, little_endian, 2) ==> (connect_verdict(Some(s), little_endian) <==> (s.len() >= 8 && s[4] == 127)),
        family_bytes(s, little_endian, 10) ==> (connect_verdict(Some(s), little_endian) <==> (s.len() >= 24
            && (forall|i: int| 8 <= i < 23 ==> s[i] == 0) && s[23] == 1)),
        s.len() >= 2 && !family_bytes(s, little_endian, 1) && !family_bytes(s, little_endian, 2)
            && !family_bytes(s, little_endian, 10) ==> !connect_verdict(Some(s), little_endian),
        s.len() < 2 ==> !connect_verdict(Some(s), little_endian),
        !connect_verdict(None, little_endian),
{
    if s.len() >= 2 {
        let f = u16_in(s[0], s[1], little_endian);
        assert(le_u16(s[0], s[1]) == (s[0] as int + 256 * (s[1] as int)) as u16);
        assert(be_u16(s[0], s[1]) == (256 * (s[0] as int) + s[1] as int) as u16);
        if f == 1 || f == 2 || f == 10 {
            assert(family_bytes(s, little_endian, f));
        }
        if family_bytes(s, little_endian, 1) {
            lemma_family_bytes(s, little_endian, 1);
        }
        if family_bytes(s, little_endian, 2) {
            lemma_family_bytes(s, little_endian, 2);
        }
        if family_bytes(s, little_endian, 10) {
            lemma_family_bytes(s, little_endian, 10);
        }
    }
}

/// The port never decides: changing the port bytes (2 and 3) of an address
/// leaves the verdict as it was.
pub proof fn law_port_does_not_decide(s: Seq<u8>, little_endian: bool, p2: u8, p3: u8)
    requires
        s.len() >= 4,
    ensures
        connect_verdict(Some(s.update(2, p2).update(3, p3)), little_endian) == connect_verdict(Some(s), little_endian),
{
    let t = s.update(2, p2).update(3, p3);
    assert(t[0] == s[0] && t[1] == s[1]);
    assert(t.len() >= 8 ==> t[4] == s[4]);
    assert(forall|i: int| 4 <= i < t.len() ==> t[i] == s[i]);
}

/// The answer to a `connect` notification: an allowed call continues in
/// the kernel; a refused one fails with the error `refused_errno` (the C
/// library's `ECONNREFUSED`), negated as the kernel expects.
pub fn seccomp_response(id: u64, allowed: bool, refused_errno: i32) -> (res: SeccompNotifResp)
    requires
        refused_errno != i32::MIN,
    ensures
        res.id == id,
        res.val == 0,
        allowed ==> res.error == 0 && res.flags == SECCOMP_USER_NOTIF_FLAG_CONTINUE,
        !allowed ==> res.error == -refused_errno && res.flags == 0,
{
    if allowed {
        SeccompNotifResp { id, val: 0, error: 0, flags: SECCOMP_USER_NOTIF_FLAG_CONTINUE }
    } else {
        SeccompNotifResp { id, val: 0, error: -refused_errno, flags: 0 }
    }
}

/// One classic BPF instruction (`struct sock_filter`).
#[derive(Debug, Clone, Copy, PartialEq, Eq, Structural)]
pub struct BpfInsn {
    pub code: u16,
    pub jt: u8,
    pub jf: u8,
    pub k: u32,
}

/// Load a 32-bit word at an absolute offset (`BPF_LD | BPF_W | BPF_ABS`).
pub const BPF_LD_W_ABS: u16 = 0x20;
/// Jump if the accumulator equals the constant (`BPF_JMP | BPF_JEQ | BPF_K`).
pub const BPF_JEQ_K: u16 = 0x15;
/// Return the constant (`BPF_RET | BPF_K`).
pub const BPF_RET_K: u16 = 0x06;
/// Lets the system call through.
pub const SECCOMP_RET_ALLOW: u32 = 0x7fff0000;
/// Hands the system call to the supervisor.
pub const SECCOMP_RET_USER_NOTIF: u32 = 0x7fc00000;
/// Offset of `arch` in `struct seccomp_data`.
pub const SECCOMP_DATA_ARCH: u32 = 4;
/// Offset of `nr` in `struct seccomp_data`.
pub const SECCOMP_DATA_NR: u32 = 0;

/// An instruction without jumps.
pub open spec fn stmt(code: u16, k: u32) -> BpfInsn {
    BpfInsn { code, jt: 0, jf: 0, k }
}

/// A conditional jump: `jt` instructions ahead when true, `jf` when false.
pub open spec fn jump(code: u16, k: u32, jt: u8, jf: u8) -> BpfInsn {
    BpfInsn { code, jt, jf, k }
}

/// The filter that hands every `connect` of the expected architecture to the
/// supervisor and lets every other call through: load the architecture, skip
/// to "allow" unless it is `arch`; load the call number, skip to "allow"
/// unless it is `connect_nr`; notify; allow.
pub open spec fn connect_filter_spec(arch: u32, connect_nr: u32) -> Seq<BpfInsn> {
    seq![
        stmt(BPF_LD_W_ABS, SECCOMP_DATA_ARCH),
        jump(BPF_JEQ_K, arch, 0, 3),
        stmt(BPF_LD_W_ABS, SECCOMP_DATA_NR),
        jump(BPF_JEQ_K, connect_nr, 0, 1),
        stmt(BPF_RET_K, SECCOMP_RET_USER_NOTIF),
        stmt(BPF_RET_K, SECCOMP_RET_ALLOW)
    ]
}

/// The seccomp filter program for the supervisor (see [`connect_filter_spec`]);
/// `arch` is the audit architecture of the machine and `connect_nr` the
/// number of the `connect` system call on it.
pub fn connect_filter_program(arch: u32, connect_nr: u32) -> (res: Vec<BpfInsn>)
    ensures
        res@ == connect_filter_spec(arch, connect_nr),
{
    let mut v: Vec<BpfInsn> = Vec::new();
    v.push(BpfInsn { code: BPF_LD_W_ABS, jt: 0, jf: 0, k: SECCOMP_DATA_ARCH });
    v.push(BpfInsn { code: BPF_JEQ_K, jt: 0, jf: 3, k: arch });
    v.push(BpfInsn { code: BPF_LD_W_ABS, jt: 0, jf: 0, k: SECCOMP_DATA_NR });
    v.push(BpfInsn { code: BPF_JEQ_K, jt: 0, jf: 1, k: connect_nr });
    v.push(BpfInsn { code: BPF_RET_K, jt: 0, jf: 0, k: SECCOMP_RET_USER_NOTIF });
    v.push(BpfInsn { code: BPF_RET_K, jt: 0, jf: 0, k: SECCOMP_RET_ALLOW });
    proof {
        assert(v@ =~= connect_filter_spec(arch, connect_nr));
    }
    v
}

/// The most bytes of a socket address read from the caller's memory.
pub const MAX_SOCKADDR_LEN: u64 = 256;

/// Where to read the address of a `connect` call: in the memory of process
/// `pid`, at `addr`, `len` bytes.
#[derive(Debug, Clone, Copy, PartialEq, Eq, Structural)]
pub struct SockaddrRequest {
    pub pid: u32,
    pub addr: u64,
    pub len: u64,
}

/// The address a `connect` notification is about: the call's second
/// argument, its length the third, at most [`MAX_SOCKADDR_LEN`] bytes.
pub fn sockaddr_request(notif: &SeccompNotif) -> (res: SockaddrRequest)
    ensures
        res.pid == notif.pid,
        res.addr == notif.data.args[1],
        res.len == if notif.data.args[2] < MAX_SOCKADDR_LEN { notif.data.args[2] } else { MAX_SOCKADDR_LEN },
{
    let len = if notif.data.args[2] < MAX_SOCKADDR_LEN { notif.data.args[2] } else { MAX_SOCKADDR_LEN };
    SockaddrRequest { pid: notif.pid, addr: notif.data.args[1], len }
}

/// What the supervisor saw last.
pub enum SupervisorEvent {
    /// Nothing arrived in time; whether the child still exists.
    Timeout { child_alive: bool },
    /// A notification arrived, with the address read for it (none when it
    /// could not be read).
    Notification { notif: SeccompNotif, sockaddr: Option<Vec<u8>> },
    /// A notification was announced but could not be read.
    ReadFailed,
    /// Waiting for notifications failed.
    PollFailed,
}

/// What the supervisor does next.
#[derive(Debug)]
pub enum SupervisorAction {
    /// Keep waiting.
    Wait,
    /// Send this answer, then keep waiting.
    Respond(SeccompNotifResp),
    /// Stop supervising.
    Stop,
}

/// One step of the supervisor: it stops when the child is gone or waiting
/// fails, answers each notification (continuing the call exactly when its
/// address is a Unix domain or loopback address, its family read in the
/// machine's byte order `little_endian`, and refusing it with `refused_errno`,
/// the C library's `ECONNREFUSED`, otherwise), and otherwise keeps waiting.
pub fn supervisor_step(event: &SupervisorEvent, refused_errno: i32, little_endian: bool) -> (res: SupervisorAction)
    requires
        refused_errno != 0,
        refused_errno != i32::MIN,
    ensures
        match *event {
            SupervisorEvent::Timeout { child_alive } => if child_alive { res is Wait } else { res is Stop },
            SupervisorEvent::PollFailed => res is Stop,
            SupervisorEvent::ReadFailed => res is Wait,
            SupervisorEvent::Notification { notif, sockaddr } => match res {
                SupervisorAction::Respond(r) => {
                    let allowed = connect_verdict(match sockaddr { Some(v) => Some(v@), None => None }, little_endian);
                    &&& r.id == notif.id
                    &&& r.val == 0
                    &&& allowed ==> r.error == 0 && r.flags == SECCOMP_USER_NOTIF_FLAG_CONTINUE
                    &&& !allowed ==> r.error == -refused_errno && r.flags == 0
                },
                _ => false,
            },
        },
{
    match event {
        SupervisorEvent::Timeout { child_alive } => if *child_alive { SupervisorAction::Wait } else { SupervisorAction::Stop },
        SupervisorEvent::PollFailed => SupervisorAction::Stop,
        SupervisorEvent::ReadFailed => SupervisorAction::Wait,
        SupervisorEvent::Notification { notif, sockaddr } => {
            let allowed = match sockaddr {
                Some(s) => validate_connect_in(Some(s.as_slice()), little_endian),
                None => validate_connect_in(None, little_endian),
            };
            SupervisorAction::Respond(seccomp_response(notif.id, allowed, refused_errno))
        },
    }
}

} // verus!
