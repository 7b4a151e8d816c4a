//! Block requests as they lie in memory, and what comes back.
use crate::error::Error;
use vstd::prelude::*;

verus! {

/// The size of a block.
pub const BLK_SIZE: usize = 512;

/// The size of a request header: a type, a reserved word and a sector.
pub const REQ_BYTES: usize = 16;

/// The size of a response: a status.
pub const RESP_BYTES: usize = 1;

/// What a request asks of the device.
#[derive(Debug, Clone, Copy, PartialEq, Eq, Structural)]
pub enum ReqType {
    /// Read a block.
    In,
    /// Write a block.
    Out,
    Flush,
    Discard,
    WriteZeroes,
}

impl ReqType {
    /// The number that the device knows the type by.
    pub open spec fn number(self) -> u32 {
        match self {
            ReqType::In => 0,
            ReqType::Out => 1,
            ReqType::Flush => 4,
            ReqType::Discard => 11,
            ReqType::WriteZeroes => 13,
        }
    }

    /// The number that the device knows the type by.
    pub fn code(self) -> (code: u32)
        ensures
            code == self.number(),
    {
        match self {
            ReqType::In => 0,
            ReqType::Out => 1,
            ReqType::Flush => 4,
            ReqType::Discard => 11,
            ReqType::WriteZeroes => 13,
        }
    }
}

/// A block that a finished request was about.
#[derive(Debug, Clone, Copy, PartialEq, Eq, Structural)]
pub enum ReadyBlock {
    /// A block that was read.
    Read(usize),
    /// A block that was written.
    Write(usize),
    /// Something else.
    Other,
}

/// What a finished request was about.
#[derive(Debug, Clone, Copy, PartialEq, Eq, Structural)]
pub enum Finished {
    /// The driver keeps the header of the request, and this is the block that it names.
    Request(ReadyBlock),
    /// The header of the request lies at this address, which is not one of the driver's.
    HeaderAt(u64),
}

/// The contents of a request header.
#[derive(Debug, Clone, Copy, PartialEq, Eq, Structural)]
pub struct ReqModel {
    pub code: u32,
    pub reserved: u32,
    pub sector: u64,
}

impl ReqModel {
    /// A request of the given type about a block.
    pub open spec fn about(type_: ReqType, block_id: usize) -> ReqModel {
        ReqModel { code: type_.number(), reserved: 0, sector: block_id as u64 }
    }

    /// The block that the request is about, and whether it was read or written.
    pub open spec fn ready_block(self) -> ReadyBlock {
        if self.code == ReqType::In.number() {
            ReadyBlock::Read(self.sector as usize)
        } else if self.code == ReqType::Out.number() {
            ReadyBlock::Write(self.sector as usize)
        } else {
            ReadyBlock::Other
        }
    }
}

/// A request header.
#[derive(Debug, Clone, Copy, PartialEq, Eq, Structural)]
pub struct BlkReq {
    pub type_: ReqType,
    pub reserved: u32,
    pub sector: u64,
}

impl View for BlkReq {
    type V = ReqModel;

    open spec fn view(&self) -> ReqModel {
        ReqModel { code: self.type_.number(), reserved: self.reserved, sector: self.sector }
    }
}

impl BlkReq {
    /// A request of the given type about a sector.
    pub fn new(type_: ReqType, sector: u64) -> (req: Self)
        ensures
            req@ == (ReqModel { code: type_.number(), reserved: 0, sector }),
    {
        BlkReq { type_, reserved: 0, sector }
    }
}

/// A request header in memory that the device reads. Its words stay where they are, as those of a
/// descriptor do.
pub struct ReqCells<'a> {
    /// Where the device finds it.
    pub addr: usize,
    pub type_: &'a mut u32,
    pub reserved: &'a mut u32,
    pub sector: &'a mut u64,
}

impl<'a> View for ReqCells<'a> {
    type V = ReqModel;

    open spec fn view(&self) -> ReqModel {
        ReqModel { code: *self.type_, reserved: *self.reserved, sector: *self.sector }
    }
}

impl<'a> ReqCells<'a> {
    /// The contents of headers.
    pub open spec fn contents(headers: Seq<ReqCells<'a>>) -> Seq<ReqModel> {
        headers.map_values(|header: ReqCells<'a>| header@)
    }

    /// Where the device finds headers.
    pub open spec fn addrs(headers: Seq<ReqCells<'a>>) -> Seq<usize> {
        headers.map_values(|header: ReqCells<'a>| header.addr)
    }

    /// Write a header.
    pub fn set(&mut self, req: BlkReq)
        ensures
            final(self)@ == req@,
            *final(self).type_ == req.type_.number(),
            *final(self).reserved == req.reserved,
            *final(self).sector == req.sector,
            final(self).addr == old(self).addr,
            *final(final(self).type_) == *final(old(self).type_),
            *final(final(self).reserved) == *final(old(self).reserved),
            *final(final(self).sector) == *final(old(self).sector),
    {
        *self.type_ = req.type_.code();
        *self.reserved = req.reserved;
        *self.sector = req.sector;
    }

    /// The block that the request is about, and whether it was read or written.
    pub fn ready_block(&self) -> (ready: ReadyBlock)
        ensures
            ready == self@.ready_block(),
    {
        let sector: usize = #[verifier::truncate]
        (*self.sector as usize);
        if *self.type_ == ReqType::In.code() {
            ReadyBlock::Read(sector)
        } else if *self.type_ == ReqType::Out.code() {
            ReadyBlock::Write(sector)
        } else {
            ReadyBlock::Other
        }
    }
}

/// How a request ended.
#[derive(Debug, Clone, Copy, PartialEq, Eq, Structural)]
pub enum RespStatus {
    Success,
    IoErr,
    Unsupported,
    NotReady,
}

impl RespStatus {
    /// The number by which the device tells the status.
    pub open spec fn number(self) -> u8 {
        match self {
            RespStatus::Success => 0,
            RespStatus::IoErr => 1,
            RespStatus::Unsupported => 2,
            RespStatus::NotReady => 3,
        }
    }

    /// The number by which the device tells the status.
    pub fn code(self) -> (code: u8)
        ensures
            code == self.number(),
    {
        match self {
            RespStatus::Success => 0,
            RespStatus::IoErr => 1,
            RespStatus::Unsupported => 2,
            RespStatus::NotReady => 3,
        }
    }
}

/// A response as the device writes it.
#[derive(Debug, Clone, Copy, PartialEq, Eq, Structural)]
pub struct BlkResp {
    pub status: u8,
}

impl Default for BlkResp {
    /// Until the device writes a status, the response is not ready.
    fn default() -> (resp: Self)
        ensures
            resp.status == RespStatus::NotReady.number(),
            resp.status == 3,
    {
        BlkResp { status: RespStatus::NotReady.code() }
    }
}

impl BlkResp {
    /// What the request came to: every status but success is an I/O error.
    pub open spec fn result(self) -> Result<(), Error> {
        if self.status == RespStatus::Success.number() {
            Ok(())
        } else {
            Err(Error::IoError)
        }
    }

    /// What the request came to, once its chain was taken back.
    pub fn outcome(&self) -> (outcome: Result<(), Error>)
        ensures
            outcome == self.result(),
            outcome is Ok <==> self.status == 0,
    {
        if self.status == RespStatus::Success.code() {
            Ok(())
        } else {
            Err(Error::IoError)
        }
    }
}

} // verus!
