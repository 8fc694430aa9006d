//! Starting and stopping the built-in slave in its running modes. Several modes may run
//! at once; all share one table of units.

use vstd::prelude::*;
use vstd::string::*;
use crate::state::{SLAVE_NONE, SLAVE_RTU, SLAVE_RTU_TCP, SLAVE_RTU_UDP, SLAVE_TCP, SLAVE_UDP};
use crate::text::same;

verus! {

/// A request to start the slave in a mode: "tcp", "udp", "rtu_tcp", "rtu_udp" or "rtu".
#[derive(Debug)]
pub struct SlaveStartReq {
    pub mode: String,
    pub bind: Option<String>,
    pub port: Option<u16>,
    pub port_name: Option<String>,
    pub baud_rate: Option<u32>,
    pub data_bits: Option<u8>,
    pub stop_bits: Option<u8>,
    pub parity: Option<String>,
    pub inter_frame_ms: Option<u64>,
}

/// What has to be set up for a mode.
#[derive(Debug)]
pub enum SlavePlan {
    Tcp { bind: String, port: u16 },
    Udp { bind: String, port: u16 },
    RtuTcp { bind: String, port: u16 },
    RtuUdp { bind: String, port: u16 },
    Serial {
        port_name: String,
        baud: u32,
        data_bits: u8,
        stop_bits: u8,
        parity: String,
        inter_frame_ms: u64,
    },
}

/// What a plan says.
pub enum PlanModel {
    Tcp { bind: Seq<char>, port: u16 },
    Udp { bind: Seq<char>, port: u16 },
    RtuTcp { bind: Seq<char>, port: u16 },
    RtuUdp { bind: Seq<char>, port: u16 },
    Serial {
        port_name: Seq<char>,
        baud: u32,
        data_bits: u8,
        stop_bits: u8,
        parity: Seq<char>,
        inter_frame_ms: u64,
    },
}

impl View for SlavePlan {
    type V = PlanModel;

    open spec fn view(&self) -> PlanModel {
        match self {
            SlavePlan::Tcp { bind, port } => PlanModel::Tcp { bind: bind@, port: *port },
            SlavePlan::Udp { bind, port } => PlanModel::Udp { bind: bind@, port: *port },
            SlavePlan::RtuTcp { bind, port } => PlanModel::RtuTcp { bind: bind@, port: *port },
            SlavePlan::RtuUdp { bind, port } => PlanModel::RtuUdp { bind: bind@, port: *port },
            SlavePlan::Serial {
                port_name,
                baud,
                data_bits,
                stop_bits,
                parity,
                inter_frame_ms,
            } => PlanModel::Serial {
                port_name: port_name@,
                baud: *baud,
                data_bits: *data_bits,
                stop_bits: *stop_bits,
                parity: parity@,
                inter_frame_ms: *inter_frame_ms,
            },
        }
    }
}

/// The text of an option, or a default.
pub open spec fn text_or(o: Option<String>, default: Seq<char>) -> Seq<char> {
    match o {
        Some(s) => s@,
        None => default,
    }
}

/// The address to bind to: all interfaces unless one is given.
pub open spec fn bind_of(req: SlaveStartReq) -> Seq<char> {
    text_or(req.bind, "0.0.0.0"@)
}

/// The port to bind to: the Modbus port unless one is given.
pub open spec fn port_of(req: SlaveStartReq) -> u16 {
    match req.port {
        Some(p) => p,
        None => 502,
    }
}

/// What a request asks to set up, its gaps filled: 9600 baud, eight data bits, one stop
/// bit, no parity and a gap of five milliseconds on a serial line, whose port has to be
/// named. An error text where the port is not named or the mode is unknown.
pub open spec fn plan_for(req: SlaveStartReq) -> Result<PlanModel, Seq<char>> {
    if req.mode@ == "tcp"@ {
        Ok(PlanModel::Tcp { bind: bind_of(req), port: port_of(req) })
    } else if req.mode@ == "udp"@ {
        Ok(PlanModel::Udp { bind: bind_of(req), port: port_of(req) })
    } else if req.mode@ == "rtu_tcp"@ {
        Ok(PlanModel::RtuTcp { bind: bind_of(req), port: port_of(req) })
    } else if req.mode@ == "rtu_udp"@ {
        Ok(PlanModel::RtuUdp { bind: bind_of(req), port: port_of(req) })
    } else if req.mode@ == "rtu"@ {
        match req.port_name {
            None => Err("请选择串口"@),
            Some(name) => Ok(
                PlanModel::Serial {
                    port_name: name@,
                    baud: match req.baud_rate {
                        Some(n) => n,
                        None => 9600,
                    },
                    data_bits: match req.data_bits {
                        Some(n) => n,
                        None => 8,
                    },
                    stop_bits: match req.stop_bits {
                        Some(n) => n,
                        None => 1,
                    },
                    parity: text_or(req.parity, "none"@),
                    inter_frame_ms: match req.inter_frame_ms {
                        Some(n) => n,
                        None => 5,
                    },
                },
            ),
        }
    } else {
        Err("未知模拟模式："@ + req.mode@)
    }
}

/// Whether an executed plan is the plan `want`.
pub open spec fn is_plan(r: Result<SlavePlan, String>, want: Result<PlanModel, Seq<char>>) -> bool {
    match r {
        Ok(p) => want == Ok::<PlanModel, Seq<char>>(p@),
        Err(m) => want == Err::<PlanModel, Seq<char>>(m@),
    }
}

fn text_or_default(o: &Option<String>, default: &str) -> (r: String)
    ensures
        r@ == text_or(*o, default@),
{
    match o {
        Some(s) => s.clone(),
        None => default.to_owned(),
    }
}

fn port_or_default(o: Option<u16>) -> (r: u16)
    ensures
        r == (match o {
            Some(p) => p,
            None => 502,
        }),
{
    match o {
        Some(p) => p,
        None => 502,
    }
}

/// What a request asks to set up, its gaps filled.
pub fn slave_plan(req: &SlaveStartReq) -> (r: Result<SlavePlan, String>)
    ensures
        is_plan(r, plan_for(*req)),
{
    let bind = text_or_default(&req.bind, "0.0.0.0");
    let port: u16 = port_or_default(req.port);
    if same(req.mode.as_str(), "tcp") {
        Ok(SlavePlan::Tcp { bind, port })
    } else if same(req.mode.as_str(), "udp") {
        Ok(SlavePlan::Udp { bind, port })
    } else if same(req.mode.as_str(), "rtu_tcp") {
        Ok(SlavePlan::RtuTcp { bind, port })
    } else if same(req.mode.as_str(), "rtu_udp") {
        Ok(SlavePlan::RtuUdp { bind, port })
    } else if same(req.mode.as_str(), "rtu") {
        match &req.port_name {
            None => Err("请选择串口".to_owned()),
            Some(name) => Ok(
                SlavePlan::Serial {
                    port_name: name.clone(),
                    baud: match req.baud_rate {
                        Some(n) => n,
                        None => 9600,
                    },
                    data_bits: match req.data_bits {
                        Some(n) => n,
                        None => 8,
                    },
                    stop_bits: match req.stop_bits {
                        Some(n) => n,
                        None => 1,
                    },
                    parity: text_or_default(&req.parity, "none"),
                    inter_frame_ms: match req.inter_frame_ms {
                        Some(n) => n,
                        None => 5,
                    },
                },
            ),
        }
    } else {
        let mut m = "未知模拟模式：".to_owned();
        m.append(req.mode.as_str());
        Err(m)
    }
}

/// The bit of a mode; zero for a text that names none.
pub open spec fn mode_bit(mode: Seq<char>) -> u8 {
    if mode == "tcp"@ {
        SLAVE_TCP
    } else if mode == "udp"@ {
        SLAVE_UDP
    } else if mode == "rtu_tcp"@ {
        SLAVE_RTU_TCP
    } else if mode == "rtu_udp"@ {
        SLAVE_RTU_UDP
    } else if mode == "rtu"@ {
        SLAVE_RTU
    } else {
        SLAVE_NONE
    }
}

fn bit_of_mode(mode: &str) -> (r: u8)
    ensures
        r == mode_bit(mode@),
{
    if same(mode, "tcp") {
        SLAVE_TCP
    } else if same(mode, "udp") {
        SLAVE_UDP
    } else if same(mode, "rtu_tcp") {
        SLAVE_RTU_TCP
    } else if same(mode, "rtu_udp") {
        SLAVE_RTU_UDP
    } else if same(mode, "rtu") {
        SLAVE_RTU
    } else {
        SLAVE_NONE
    }
}

/// Which modes are running, as shown to the user.
#[derive(Debug, Clone, Copy, PartialEq, Eq, Structural)]
pub struct ModeStatus {
    pub tcp: bool,
    pub udp: bool,
    pub rtu_tcp: bool,
    pub rtu_udp: bool,
    pub rtu: bool,
}

/// The names of the modes that run, in the order in which they are stopped.
pub open spec fn running_names(bits: u8) -> Seq<Seq<char>> {
    name_if(bits, SLAVE_TCP, "tcp"@) + name_if(bits, SLAVE_UDP, "udp"@) + name_if(
        bits,
        SLAVE_RTU_TCP,
        "rtu_tcp"@,
    ) + name_if(bits, SLAVE_RTU_UDP, "rtu_udp"@) + name_if(bits, SLAVE_RTU, "rtu"@)
}

/// A name, by itself, where its bit is set.
pub open spec fn name_if(bits: u8, bit: u8, name: Seq<char>) -> Seq<Seq<char>> {
    if bits & bit != 0 {
        seq![name]
    } else {
        Seq::empty()
    }
}

/// The texts of names.
pub open spec fn name_texts(names: Seq<&'static str>) -> Seq<Seq<char>> {
    Seq::new(names.len(), |i: int| names[i]@)
}

fn push_if(out: &mut Vec<&'static str>, bits: u8, bit: u8, name: &'static str)
    ensures
        name_texts(final(out)@) == name_texts(old(out)@) + name_if(bits, bit, name@),
{
    if bits & bit != 0 {
        out.push(name);
    }
    assert(name_texts(out@) =~= name_texts(old(out)@) + name_if(bits, bit, name@));
}

/// The running modes of the slave, one bit for each.
#[derive(Debug)]
pub struct SlaveModes {
    pub bits: u8,
}

impl SlaveModes {
    /// Nothing is running.
    pub fn new() -> (r: Self)
        ensures
            r.bits == SLAVE_NONE,
    {
        SlaveModes { bits: SLAVE_NONE }
    }

    /// Whether a mode is running.
    pub open spec fn runs(&self, mode: Seq<char>) -> bool {
        self.bits & mode_bit(mode) != 0
    }

    /// Whether any mode is running; registers vary by themselves only then.
    pub fn any(&self) -> (r: bool)
        ensures
            r == (self.bits != 0),
    {
        self.bits != 0
    }

    /// A mode has been set up.
    pub fn started(&mut self, mode: &str)
        ensures
            final(self).bits == old(self).bits | mode_bit(mode@),
    {
        self.bits = self.bits | bit_of_mode(mode);
    }

    /// A mode is stopped. Stopping one that does not run changes nothing.
    pub fn stop(&mut self, mode: &str)
        ensures
            final(self).bits == old(self).bits & !mode_bit(mode@),
    {
        self.bits = self.bits & !bit_of_mode(mode);
    }

    /// Begins to start a mode: it is stopped first, so that the new settings count.
    /// Returns what to set up.
    pub fn begin_start(&mut self, req: &SlaveStartReq) -> (r: Result<SlavePlan, String>)
        ensures
            final(self).bits == old(self).bits & !mode_bit(req.mode@),
            is_plan(r, plan_for(*req)),
    {
        self.stop(req.mode.as_str());
        slave_plan(req)
    }

    /// Stops all modes; returns the names of those that were running.
    pub fn stop_all(&mut self) -> (r: Vec<&'static str>)
        ensures
            name_texts(r@) == running_names(old(self).bits),
            final(self).bits == old(self).bits & !31u8,
    {
        let bits: u8 = self.bits;
        let mut out: Vec<&'static str> = Vec::new();
        push_if(&mut out, bits, SLAVE_TCP, "tcp");
        push_if(&mut out, bits, SLAVE_UDP, "udp");
        push_if(&mut out, bits, SLAVE_RTU_TCP, "rtu_tcp");
        push_if(&mut out, bits, SLAVE_RTU_UDP, "rtu_udp");
        push_if(&mut out, bits, SLAVE_RTU, "rtu");
        assert(name_texts(out@) =~= running_names(bits));
        self.bits = self.bits & !31u8;
        out
    }

    /// Which modes are running.
    pub fn status(&self) -> (r: ModeStatus)
        ensures
            r.tcp == (self.bits & SLAVE_TCP != 0),
            r.udp == (self.bits & SLAVE_UDP != 0),
            r.rtu_tcp == (self.bits & SLAVE_RTU_TCP != 0),
            r.rtu_udp == (self.bits & SLAVE_RTU_UDP != 0),
            r.rtu == (self.bits & SLAVE_RTU != 0),
    {
        ModeStatus {
            tcp: self.bits & SLAVE_TCP != 0,
            udp: self.bits & SLAVE_UDP != 0,
            rtu_tcp: self.bits & SLAVE_RTU_TCP != 0,
            rtu_udp: self.bits & SLAVE_RTU_UDP != 0,
            rtu: self.bits & SLAVE_RTU != 0,
        }
    }
}

/// The five mode names are different texts.
proof fn lemma_mode_names()
    ensures
        "tcp"@ != "udp"@,
        "tcp"@ != "rtu_tcp"@,
        "tcp"@ != "rtu_udp"@,
        "tcp"@ != "rtu"@,
        "udp"@ != "rtu_tcp"@,
        "udp"@ != "rtu_udp"@,
        "udp"@ != "rtu"@,
        "rtu_tcp"@ != "rtu_udp"@,
        "rtu_tcp"@ != "rtu"@,
        "rtu_udp"@ != "rtu"@,
{
    reveal_strlit("tcp");
    reveal_strlit("udp");
    reveal_strlit("rtu_tcp");
    reveal_strlit("rtu_udp");
    reveal_strlit("rtu");
    assert("tcp"@[0] == 't' && "udp"@[0] == 'u' && "rtu"@[0] == 'r');
    assert("rtu_tcp"@[4] == 't' && "rtu_udp"@[4] == 'u');
    assert("rtu_tcp"@.len() == 7 && "rtu_udp"@.len() == 7 && "rtu"@.len() == 3);
}

/// A mode that is started runs, one that is stopped does not, and neither touches
/// another mode. Stopping twice is stopping once, and stopping before a start makes no
/// difference to what runs afterwards.
pub proof fn law_modes_are_independent(bits: u8, mode: Seq<char>, other: Seq<char>)
    requires
        mode_bit(mode) != 0,
        mode_bit(other) != 0,
    ensures
        (bits | mode_bit(mode)) & mode_bit(mode) != 0,
        (bits & !mode_bit(mode)) & mode_bit(mode) == 0,
        other != mode ==> ((bits | mode_bit(mode)) & mode_bit(other) != 0) == (bits & mode_bit(other)
            != 0),
        other != mode ==> ((bits & !mode_bit(mode)) & mode_bit(other) != 0) == (bits & mode_bit(
            other,
        ) != 0),
        (bits & !mode_bit(mode)) & !mode_bit(mode) == bits & !mode_bit(mode),
        (bits & !mode_bit(mode)) | mode_bit(mode) == bits | mode_bit(mode),
{
    lemma_mode_names();
    let a = mode_bit(mode);
    let b = mode_bit(other);
    lemma_bits(bits, a, b);
}

proof fn lemma_bits(bits: u8, a: u8, b: u8)
    by (bit_vector)
    requires
        a == 1 || a == 2 || a == 4 || a == 8 || a == 16,
        b == 1 || b == 2 || b == 4 || b == 8 || b == 16,
    ensures
        (bits | a) & a != 0,
        (bits & !a) & a == 0,
        a != b ==> ((bits | a) & b != 0) == (bits & b != 0),
        a != b ==> ((bits & !a) & b != 0) == (bits & b != 0),
        (bits & !a) & !a == bits & !a,
        (bits & !a) | a == bits | a,
{
}

/// After all modes were stopped, none runs.
pub proof fn law_stop_all_stops_all(bits: u8, mode: Seq<char>)
    ensures
        (bits & !31u8) & mode_bit(mode) == 0,
{
    let a = mode_bit(mode);
    assert((bits & !31u8) & a == 0) by (bit_vector)
        requires
            a == 0 || a == 1 || a == 2 || a == 4 || a == 8 || a == 16,
    ;
}

/// Each of the five modes has a bit of its own, and no other text has one.
pub proof fn law_mode_bits(mode: Seq<char>)
    ensures
        mode == "tcp"@ <==> mode_bit(mode) == 1,
        mode == "udp"@ <==> mode_bit(mode) == 2,
        mode == "rtu"@ <==> mode_bit(mode) == 4,
        mode == "rtu_tcp"@ <==> mode_bit(mode) == 8,
        mode == "rtu_udp"@ <==> mode_bit(mode) == 16,
        mode != "tcp"@ && mode != "udp"@ && mode != "rtu"@ && mode != "rtu_tcp"@ && mode
            != "rtu_udp"@ ==> mode_bit(mode) == 0,
{
    lemma_mode_names();
}

/// A mode is named among those that run exactly where its bit is set, once, and nothing
/// else is named; the order is fixed.
pub proof fn law_running_names(bits: u8)
    ensures
        running_names(bits).contains("tcp"@) <==> bits & 1 != 0,
        running_names(bits).contains("udp"@) <==> bits & 2 != 0,
        running_names(bits).contains("rtu"@) <==> bits & 4 != 0,
        running_names(bits).contains("rtu_tcp"@) <==> bits & 8 != 0,
        running_names(bits).contains("rtu_udp"@) <==> bits & 16 != 0,
        running_names(bits).len() == (if bits & 1 != 0 { 1int } else { 0 }) + (if bits & 2 != 0 {
            1int
        } else {
            0
        }) + (if bits & 4 != 0 { 1int } else { 0 }) + (if bits & 8 != 0 { 1int } else { 0 }) + (
        if bits & 16 != 0 { 1int } else { 0 }),
{
    lemma_mode_names();
    let a = name_if(bits, 1, "tcp"@);
    let b = name_if(bits, 2, "udp"@);
    let c = name_if(bits, 8, "rtu_tcp"@);
    let d = name_if(bits, 16, "rtu_udp"@);
    let e = name_if(bits, 4, "rtu"@);
    let ab = a + b;
    let abc = ab + c;
    let abcd = abc + d;
    let all = abcd + e;
    assert(all == running_names(bits));
    if bits & 1 != 0 {
        assert(all[0] == "tcp"@);
    }
    if bits & 2 != 0 {
        assert(all[a.len() as int] == "udp"@);
    }
    if bits & 8 != 0 {
        assert(all[ab.len() as int] == "rtu_tcp"@);
    }
    if bits & 16 != 0 {
        assert(all[abc.len() as int] == "rtu_udp"@);
    }
    if bits & 4 != 0 {
        assert(all[abcd.len() as int] == "rtu"@);
    }
    assert forall|i: int| 0 <= i < all.len() implies (all[i] == "tcp"@ && bits & 1 != 0) || (all[i]
        == "udp"@ && bits & 2 != 0) || (all[i] == "rtu_tcp"@ && bits & 8 != 0) || (all[i]
        == "rtu_udp"@ && bits & 16 != 0) || (all[i] == "rtu"@ && bits & 4 != 0) by {
        if i < a.len() {
            assert(all[i] == a[i]);
        } else if i < ab.len() {
            assert(all[i] == b[i - a.len()]);
        } else if i < abc.len() {
            assert(all[i] == c[i - ab.len()]);
        } else if i < abcd.len() {
            assert(all[i] == d[i - abc.len()]);
        } else {
            assert(all[i] == e[i - abcd.len()]);
        }
    }
}

/// A socket mode is set up at the address and port of the request, 0.0.0.0 and 502 where it
/// gives none; the plan is that of the mode that was asked for.
pub proof fn law_socket_plans(req: SlaveStartReq, bind: Seq<char>, port: u16)
    requires
        req.bind matches Some(b) ==> bind == b@,
        req.bind is None ==> bind == "0.0.0.0"@,
        req.port matches Some(p) ==> port == p,
        req.port is None ==> port == 502,
    ensures
        req.mode@ == "tcp"@ ==> plan_for(req) == Ok::<PlanModel, Seq<char>>(
            PlanModel::Tcp { bind, port },
        ),
        req.mode@ == "udp"@ ==> plan_for(req) == Ok::<PlanModel, Seq<char>>(
            PlanModel::Udp { bind, port },
        ),
        req.mode@ == "rtu_tcp"@ ==> plan_for(req) == Ok::<PlanModel, Seq<char>>(
            PlanModel::RtuTcp { bind, port },
        ),
        req.mode@ == "rtu_udp"@ ==> plan_for(req) == Ok::<PlanModel, Seq<char>>(
            PlanModel::RtuUdp { bind, port },
        ),
        req.mode@ != "tcp"@ && req.mode@ != "udp"@ && req.mode@ != "rtu_tcp"@ && req.mode@
            != "rtu_udp"@ && req.mode@ != "rtu"@ ==> plan_for(req) == Err::<PlanModel, Seq<char>>(
            "未知模拟模式："@ + req.mode@,
        ),
{
    lemma_mode_names();
}

/// The serial mode needs a port name. Each setting is that of the request, or else 9600
/// baud, eight data bits, one stop bit, no parity and a gap of five milliseconds.
pub proof fn law_serial_plans(req: SlaveStartReq)
    requires
        req.mode@ == "rtu"@,
    ensures
        req.port_name is None ==> plan_for(req) == Err::<PlanModel, Seq<char>>("请选择串口"@),
        req.port_name matches Some(name) ==> {
            &&& plan_for(req) matches Ok(PlanModel::Serial {
                port_name,
                baud,
                data_bits,
                stop_bits,
                parity,
                inter_frame_ms,
            }) && {
                &&& port_name == name@
                &&& req.baud_rate matches Some(n) ==> baud == n
                &&& req.baud_rate is None ==> baud == 9600
                &&& req.data_bits matches Some(n) ==> data_bits == n
                &&& req.data_bits is None ==> data_bits == 8
                &&& req.stop_bits matches Some(n) ==> stop_bits == n
                &&& req.stop_bits is None ==> stop_bits == 1
                &&& req.parity matches Some(t) ==> parity == t@
                &&& req.parity is None ==> parity == "none"@
                &&& req.inter_frame_ms matches Some(n) ==> inter_frame_ms == n
                &&& req.inter_frame_ms is None ==> inter_frame_ms == 5
            }
        },
{
    lemma_mode_names();
}

/// An executed plan stands for the plan that is wanted exactly where both are set up alike,
/// or both refuse with the same text.
pub proof fn law_plans(r: Result<SlavePlan, String>, want: Result<PlanModel, Seq<char>>)
    ensures
        is_plan(r, want) <==> match (r, want) {
            (Ok(p), Ok(m)) => p@ == m,
            (Err(t), Err(u)) => t@ == u,
            _ => false,
        },
{
}

} // verus!
