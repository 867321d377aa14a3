use vstd::prelude::*;

verus! {

/// Command byte of a request for single bytes of memory.
pub const CMD_READ_SINGLE: u8 = 0xA8;

/// Command byte of a request for a contiguous block of memory.
pub const CMD_READ_BLOCK: u8 = 0xA0;

/// Addresses of the control unit's memory are three bytes wide.
pub const ADDR_LIMIT: u32 = 0x100_0000;

/// A sensor reading that the control unit can be asked for.
#[derive(Clone, Copy, Debug, PartialEq, Eq, Structural)]
pub enum EcuParam {
    EngineSpeed,
    EngineLoad,
    IntakeTemp,
    ThrottleAngle,
    AirFuelSensor1,
}

/// One row of the parameter table: where a reading lives in the control unit's
/// memory, and where its value is found in the response packet.
#[derive(Clone, Copy, Debug, PartialEq, Eq, Structural)]
pub struct ParamRow {
    /// First address of the reading.
    pub addr: u32,
    /// Last address of the reading, where it spans a block.
    pub addr_end: Option<u32>,
    /// Index of the first value byte in the response packet.
    pub offset: usize,
    /// Index of the second value byte, where there is one.
    pub offset_end: Option<usize>,
}

impl ParamRow {
    /// A row is either a single address with a single offset, or a block with
    /// two offsets. A block ends after its start and spans at most 255 bytes,
    /// so that its length fits the one byte that a block request has for it.
    pub open spec fn wf(self) -> bool {
        &&& self.addr < ADDR_LIMIT
        &&& (self.addr_end is Some <==> self.offset_end is Some)
        &&& self.addr_end matches Some(end) ==> self.addr < end && end - self.addr <= 255 && end
            < ADDR_LIMIT
    }
}

/// The three bytes of an address, most significant first.
pub open spec fn addr_bytes(addr: u32) -> Seq<u8> {
    seq![((addr / 0x1_0000) % 256) as u8, ((addr / 0x100) % 256) as u8, (addr % 256) as u8]
}

/// The address that three bytes, most significant first, stand for.
pub open spec fn addr_of_bytes(bytes: Seq<u8>) -> int {
    bytes[0] * 0x1_0000 + bytes[1] * 0x100 + bytes[2]
}

impl EcuParam {
    /// The parameter table.
    pub open spec fn table(self) -> ParamRow {
        match self {
            EcuParam::EngineSpeed => (ParamRow {
                addr: 0x00000E,
                addr_end: Some(0x00000F),
                offset: 4,
                offset_end: Some(5),
            }),
            EcuParam::EngineLoad => (ParamRow {
                addr: 0x000007,
                addr_end: None,
                offset: 5,
                offset_end: None,
            }),
            EcuParam::IntakeTemp => (ParamRow {
                addr: 0x000012,
                addr_end: None,
                offset: 5,
                offset_end: None,
            }),
            EcuParam::ThrottleAngle => (ParamRow {
                addr: 0x000015,
                addr_end: None,
                offset: 5,
                offset_end: None,
            }),
            EcuParam::AirFuelSensor1 => (ParamRow {
                addr: 0x000042,
                addr_end: None,
                offset: 5,
                offset_end: None,
            }),
        }
    }

    /// The payload of the request that reads this parameter: the command byte,
    /// a zero pad byte, the address, and for a block the distance from its
    /// first to its last address.
    pub open spec fn read_payload(self) -> Seq<u8> {
        let row = self.table();
        match row.addr_end {
            None => seq![CMD_READ_SINGLE, 0u8] + addr_bytes(row.addr),
            Some(end) => seq![CMD_READ_BLOCK, 0u8] + addr_bytes(row.addr) + seq![
                (end - row.addr) as u8,
            ],
        }
    }

    /// Looks the parameter up in the table.
    pub fn row(&self) -> (row: ParamRow)
        ensures
            row == self.table(),
            row.wf(),
    {
        match self {
            EcuParam::EngineSpeed => ParamRow {
                addr: 0x00000E,
                addr_end: Some(0x00000F),
                offset: 4,
                offset_end: Some(5),
            },
            EcuParam::EngineLoad => ParamRow {
                addr: 0x000007,
                addr_end: None,
                offset: 5,
                offset_end: None,
            },
            EcuParam::IntakeTemp => ParamRow {
                addr: 0x000012,
                addr_end: None,
                offset: 5,
                offset_end: None,
            },
            EcuParam::ThrottleAngle => ParamRow {
                addr: 0x000015,
                addr_end: None,
                offset: 5,
                offset_end: None,
            },
            EcuParam::AirFuelSensor1 => ParamRow {
                addr: 0x000042,
                addr_end: None,
                offset: 5,
                offset_end: None,
            },
        }
    }

    /// Where the parameter is located in the control unit's memory: its first
    /// address and, for a block, its last.
    pub fn addr(&self) -> (r: (u32, Option<u32>))
        ensures
            r.0 == self.table().addr,
            r.1 == self.table().addr_end,
            r.0 < ADDR_LIMIT,
            r.1 matches Some(end) ==> r.0 < end && end - r.0 <= 255 && end < ADDR_LIMIT,
    {
        let row = self.row();
        (row.addr, row.addr_end)
    }

    /// Where the parameter's value is found in the response packet: the index
    /// of its first byte and, for a block, of its second.
    pub fn mask(&self) -> (r: (usize, Option<usize>))
        ensures
            r.0 == self.table().offset,
            r.1 == self.table().offset_end,
            r.1 is Some <==> self.table().addr_end is Some,
    {
        let row = self.row();
        (row.offset, row.offset_end)
    }

    /// The command byte and the bytes after it of the request that reads this
    /// parameter.
    pub fn read_request(&self) -> (r: (u8, Vec<u8>))
        ensures
            seq![r.0] + r.1@ == self.read_payload(),
            r.0 == CMD_READ_SINGLE || r.0 == CMD_READ_BLOCK,
            r.1@.len() == if self.table().addr_end is Some { 5int } else { 4int },
    {
        let (addr1, addr2) = self.addr();
        let a1: u8 = ((addr1 & 0xFF0000) >> 16) as u8;
        let a2: u8 = ((addr1 & 0x00FF00) >> 8) as u8;
        let a3: u8 = (addr1 & 0x0000FF) as u8;
        assert(a1 == ((addr1 / 0x1_0000) % 256) as u8 && a2 == ((addr1 / 0x100) % 256) as u8 && a3
            == (addr1 % 256) as u8) by (bit_vector)
            requires
                a1 == ((addr1 & 0xFF0000) >> 16) as u8,
                a2 == ((addr1 & 0x00FF00) >> 8) as u8,
                a3 == (addr1 & 0x0000FF) as u8,
        ;
        let mut extra: Vec<u8> = Vec::new();
        extra.push(0x00);
        extra.push(a1);
        extra.push(a2);
        extra.push(a3);
        match addr2 {
            None => {
                assert(seq![CMD_READ_SINGLE] + extra@ =~= self.read_payload());
                (CMD_READ_SINGLE, extra)
            },
            Some(end) => {
                extra.push((end - addr1) as u8);
                assert(seq![CMD_READ_BLOCK] + extra@ =~= self.read_payload());
                (CMD_READ_BLOCK, extra)
            },
        }
    }
}

/// Every row of the table is well formed.
pub proof fn lemma_table_well_formed(param: EcuParam)
    ensures
        param.table().wf(),
{
}

/// The three bytes of an address below the limit stand for that address again.
pub proof fn lemma_addr_bytes_round_trip(addr: u32)
    requires
        addr < ADDR_LIMIT,
    ensures
        addr_bytes(addr).len() == 3,
        addr_of_bytes(addr_bytes(addr)) == addr,
{
}

/// The request for a single address has the single-read command and five
/// payload bytes: the command, a zero, and the address. The request for a block
/// has the block-read command and a sixth byte, the distance from the first
/// address to the last.
pub proof fn lemma_read_payload_shape(param: EcuParam)
    ensures
        param.read_payload()[1] == 0,
        addr_of_bytes(param.read_payload().subrange(2, 5)) == param.table().addr,
        param.table().addr_end is None ==> param.read_payload().len() == 5
            && param.read_payload()[0] == CMD_READ_SINGLE,
        param.table().addr_end matches Some(end) ==> param.read_payload().len() == 6
            && param.read_payload()[0] == CMD_READ_BLOCK && param.read_payload()[5] == end
            - param.table().addr,
{
    let row = param.table();
    lemma_table_well_formed(param);
    lemma_addr_bytes_round_trip(row.addr);
    assert(param.read_payload().subrange(2, 5) =~= addr_bytes(row.addr));
}

} // verus!
