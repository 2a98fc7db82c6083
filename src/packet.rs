use vstd::prelude::*;

verus! {

/// Size of the fixed packet header in bytes.
pub const HEADER_SIZE: usize = 44;

/// Size of each buffer in the device queues.
pub const DATA_BUFFER_SIZE: usize = 4096;

/// Number of buffers in each device queue.
pub const QUEUE_SIZE: usize = 16;

/// The maximum size of the payload of a single packet, so that it fits into one queue buffer.
pub const MAX_PAYLOAD_SIZE: usize = DATA_BUFFER_SIZE - HEADER_SIZE;

/// Flag bit: the sender will receive no more data.
pub const FLAG_SHUTDOWN_RECEIVE: u32 = 1;

/// Flag bit: the sender will send no more data.
pub const FLAG_SHUTDOWN_SEND: u32 = 2;

/// All flag bits set.
pub const FLAGS_ALL: u32 = FLAG_SHUTDOWN_RECEIVE | FLAG_SHUTDOWN_SEND;

/// The operation carried by a packet.
#[derive(Clone, Copy, Debug, PartialEq, Eq, Structural)]
pub enum VSockOp {
    Request,
    Response,
    Rst,
    Shutdown,
    Rw,
    CreditUpdate,
    CreditRequest,
}

/// The wire code of an operation.
pub open spec fn op_code(op: VSockOp) -> u16 {
    match op {
        VSockOp::Request => 1,
        VSockOp::Response => 2,
        VSockOp::Rst => 3,
        VSockOp::Shutdown => 4,
        VSockOp::Rw => 5,
        VSockOp::CreditUpdate => 6,
        VSockOp::CreditRequest => 7,
    }
}

/// The operation that a wire code denotes, if any.
pub open spec fn op_of_code(code: u16) -> Option<VSockOp> {
    if code == 1 {
        Some(VSockOp::Request)
    } else if code == 2 {
        Some(VSockOp::Response)
    } else if code == 3 {
        Some(VSockOp::Rst)
    } else if code == 4 {
        Some(VSockOp::Shutdown)
    } else if code == 5 {
        Some(VSockOp::Rw)
    } else if code == 6 {
        Some(VSockOp::CreditUpdate)
    } else if code == 7 {
        Some(VSockOp::CreditRequest)
    } else {
        None
    }
}

impl VSockOp {
    /// The wire code of this operation.
    pub fn code(self) -> (r: u16)
        ensures
            r == op_code(self),
            op_of_code(r) == Some(self),
    {
        match self {
            VSockOp::Request => 1,
            VSockOp::Response => 2,
            VSockOp::Rst => 3,
            VSockOp::Shutdown => 4,
            VSockOp::Rw => 5,
            VSockOp::CreditUpdate => 6,
            VSockOp::CreditRequest => 7,
        }
    }

    /// The operation with the given wire code, or `None` for an unknown code.
    pub fn from_code(code: u16) -> (r: Option<VSockOp>)
        ensures
            r == op_of_code(code),
            r matches Some(op) ==> op_code(op) == code,
    {
        if code == 1 {
            Some(VSockOp::Request)
        } else if code == 2 {
            Some(VSockOp::Response)
        } else if code == 3 {
            Some(VSockOp::Rst)
        } else if code == 4 {
            Some(VSockOp::Shutdown)
        } else if code == 5 {
            Some(VSockOp::Rw)
        } else if code == 6 {
            Some(VSockOp::CreditUpdate)
        } else if code == 7 {
            Some(VSockOp::CreditRequest)
        } else {
            None
        }
    }
}

/// The mathematical content of a packet: its header fields and its payload.
pub struct PacketView {
    pub src_port: u32,
    pub dst_port: u32,
    pub op: VSockOp,
    pub flags: u32,
    pub buf_alloc: u32,
    pub fwd_cnt: u32,
    pub payload: Seq<u8>,
}

/// A control packet as the codec builds it: no flags, zero credit fields, no payload.
pub open spec fn control_view(src_port: u32, dst_port: u32, op: VSockOp) -> PacketView {
    PacketView {
        src_port,
        dst_port,
        op,
        flags: 0,
        buf_alloc: 0,
        fwd_cnt: 0,
        payload: Seq::empty(),
    }
}

/// A data packet as the codec builds it.
pub open spec fn data_view(payload: Seq<u8>, src_port: u32, dst_port: u32) -> PacketView {
    PacketView {
        src_port,
        dst_port,
        op: VSockOp::Rw,
        flags: 0,
        buf_alloc: 0,
        fwd_cnt: 0,
        payload,
    }
}

/// A packet: header fields and payload.
pub struct Packet {
    src_port: u32,
    dst_port: u32,
    op: VSockOp,
    flags: u32,
    buf_alloc: u32,
    fwd_cnt: u32,
    payload: Vec<u8>,
}

impl View for Packet {
    type V = PacketView;

    closed spec fn view(&self) -> PacketView {
        PacketView {
            src_port: self.src_port,
            dst_port: self.dst_port,
            op: self.op,
            flags: self.flags,
            buf_alloc: self.buf_alloc,
            fwd_cnt: self.fwd_cnt,
            payload: self.payload@,
        }
    }
}

impl Packet {
    /// Builds a control packet without payload.
    pub fn new_control(src_port: u32, dst_port: u32, op: VSockOp) -> (r: Packet)
        ensures
            r@ == control_view(src_port, dst_port, op),
    {
        Packet { src_port, dst_port, op, flags: 0, buf_alloc: 0, fwd_cnt: 0, payload: Vec::new() }
    }

    /// Builds a data packet carrying a copy of `data`; fails when it does not fit in one packet.
    pub fn new_data(data: &[u8], src_port: u32, dst_port: u32) -> (r: Result<Packet, PacketError>)
        ensures
            data@.len() <= MAX_PAYLOAD_SIZE <==> r is Ok,
            r matches Ok(p) ==> p@ == data_view(data@, src_port, dst_port),
    {
        if data.len() > MAX_PAYLOAD_SIZE {
            return Err(PacketError::PayloadTooLarge);
        }
        let mut payload: Vec<u8> = Vec::new();
        let mut i: usize = 0;
        while i < data.len()
            invariant
                i <= data@.len(),
                payload@ == data@.subrange(0, i as int),
            decreases data@.len() - i,
        {
            payload.push(data[i]);
            i = i + 1;
            assert(payload@ =~= data@.subrange(0, i as int));
        }
        assert(payload@ =~= data@);
        Ok(Packet { src_port, dst_port, op: VSockOp::Rw, flags: 0, buf_alloc: 0, fwd_cnt: 0, payload })
    }

    pub fn get_src_port(&self) -> (r: u32)
        ensures
            r == self@.src_port,
    {
        self.src_port
    }

    pub fn get_dst_port(&self) -> (r: u32)
        ensures
            r == self@.dst_port,
    {
        self.dst_port
    }

    pub fn get_op(&self) -> (r: VSockOp)
        ensures
            r == self@.op,
    {
        self.op
    }

    pub fn get_flags(&self) -> (r: u32)
        ensures
            r == self@.flags,
    {
        self.flags
    }

    pub fn get_buf_alloc(&self) -> (r: u32)
        ensures
            r == self@.buf_alloc,
    {
        self.buf_alloc
    }

    pub fn get_fwd_cnt(&self) -> (r: u32)
        ensures
            r == self@.fwd_cnt,
    {
        self.fwd_cnt
    }

    pub fn get_payload(&self) -> (r: &[u8])
        ensures
            r@ == self@.payload,
    {
        self.payload.as_slice()
    }

    pub fn set_flags(&mut self, flags: u32)
        ensures
            final(self)@ == (PacketView { flags, ..old(self)@ }),
    {
        self.flags = flags;
    }

    pub fn set_buf_alloc(&mut self, buf_alloc: u32)
        ensures
            final(self)@ == (PacketView { buf_alloc, ..old(self)@ }),
    {
        self.buf_alloc = buf_alloc;
    }

    pub fn set_fwd_cnt(&mut self, fwd_cnt: u32)
        ensures
            final(self)@ == (PacketView { fwd_cnt, ..old(self)@ }),
    {
        self.fwd_cnt = fwd_cnt;
    }
}

/// Errors of the packet codec.
#[derive(Clone, Copy, Debug, PartialEq, Eq, Structural)]
pub enum PacketError {
    /// The payload does not fit into a single packet.
    PayloadTooLarge,
}

} // verus!
