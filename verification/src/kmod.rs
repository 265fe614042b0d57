//! The interface of the VAC kernel module: ioctl request numbers, the
//! records it fills, and how the daemon reads them.
use vstd::prelude::*;
use crate::policy::trim_trailing_nul;
use crate::text::{lossy_text, utf8_lossy_string};

verus! {

pub const VAC_IOC_MAGIC: u8 = 0x56;
pub const VAC_MAX_PROCS: usize = 2048;
pub const VAC_MAX_COMM: usize = 16;
pub const VAC_READ_SIZE: usize = 256;

pub const VAC_CAP_PROC_LIST: u32 = 1;
pub const VAC_CAP_READ_MEM: u32 = 2;
pub const VAC_CAP_PROC_NAME: u32 = 4;
pub const VAC_CAP_PROTECT: u32 = 8;

/// Size of the read-memory record: pid, address, size, 256 data bytes,
/// bytes read.
pub const VAC_READ_MEM_SIZE: u16 = 276;

/// Size of the process-name record: pid and a 16-byte name.
pub const VAC_PROC_NAME_SIZE: u16 = 20;

/// The request number of an ioctl without data (`_IO`).
pub open spec fn spec_io(magic: u8, nr: u8) -> u64 {
    ((magic as u64) << 8u64) | (nr as u64)
}

/// The request number of a reading ioctl (`_IOR`).
pub open spec fn spec_ior(magic: u8, nr: u8, size: u16) -> u64 {
    (2u64 << 30u64) | ((size as u64) << 16u64) | ((magic as u64) << 8u64) | (nr as u64)
}

/// The request number of a reading and writing ioctl (`_IOWR`).
pub open spec fn spec_iowr(magic: u8, nr: u8, size: u16) -> u64 {
    (3u64 << 30u64) | ((size as u64) << 16u64) | ((magic as u64) << 8u64) | (nr as u64)
}

/// `_IO(magic, nr)`.
pub fn _io(magic: u8, nr: u8) -> (r: u64)
    ensures
        r == spec_io(magic, nr),
{
    ((magic as u64) << 8u64) | (nr as u64)
}

/// `_IOR(magic, nr, size)`.
pub fn _ior(magic: u8, nr: u8, size: u16) -> (r: u64)
    ensures
        r == spec_ior(magic, nr, size),
{
    (2u64 << 30u64) | ((size as u64) << 16u64) | ((magic as u64) << 8u64) | (nr as u64)
}

/// `_IOWR(magic, nr, size)`.
pub fn _iowr(magic: u8, nr: u8, size: u16) -> (r: u64)
    ensures
        r == spec_iowr(magic, nr, size),
{
    (3u64 << 30u64) | ((size as u64) << 16u64) | ((magic as u64) << 8u64) | (nr as u64)
}

/// Reports the module's capabilities.
pub const VAC_IOCTL_FILL: u64 = 0x8004_5600;
/// Fills a process list (too large for the size field, so `_IO`).
pub const VAC_IOCTL_PROC_LIST: u64 = 0x5601;
/// Reads another process's memory.
pub const VAC_IOCTL_READ_MEM: u64 = 0xC114_5602;
/// Reads a process's name.
pub const VAC_IOCTL_PROC_NAME: u64 = 0xC014_5603;

/// Law: the request numbers are the kernel's encodings of the module's
/// requests.
pub proof fn lemma_ioctl_numbers()
    ensures
        VAC_IOCTL_FILL == spec_ior(VAC_IOC_MAGIC, 0, 4),
        VAC_IOCTL_PROC_LIST == spec_io(VAC_IOC_MAGIC, 1),
        VAC_IOCTL_READ_MEM == spec_iowr(VAC_IOC_MAGIC, 2, VAC_READ_MEM_SIZE),
        VAC_IOCTL_PROC_NAME == spec_iowr(VAC_IOC_MAGIC, 3, VAC_PROC_NAME_SIZE),
{
    assert(spec_ior(0x56u8, 0u8, 4u16) == 0x8004_5600u64) by (bit_vector);
    assert(spec_io(0x56u8, 1u8) == 0x5601u64) by (bit_vector);
    assert(spec_iowr(0x56u8, 2u8, 276u16) == 0xC114_5602u64) by (bit_vector);
    assert(spec_iowr(0x56u8, 3u8, 20u16) == 0xC014_5603u64) by (bit_vector);
}

/// The Windows driver's `CTL_CODE(FILE_DEVICE_UNKNOWN, function,
/// METHOD_BUFFERED, FILE_ANY_ACCESS)`.
pub fn ctl_code(function: u32) -> (r: u32)
    ensures
        r == (0x22u32 << 16u32) | (function << 2u32),
{
    (0x22u32 << 16u32) | (function << 2u32)
}

/// A process record of the kernel module.
#[derive(Clone, Copy)]
pub struct VacProcEntry {
    pub pid: u32,
    pub ppid: u32,
    pub comm: [u8; 16],
}

/// The process list the kernel module fills.
pub struct VacProcList {
    pub count: u32,
    pub entries: Vec<VacProcEntry>,
}

/// A read-memory request and its answer.
pub struct VacReadMem {
    pub pid: u32,
    pub address: u64,
    pub size: u32,
    pub data: [u8; 256],
    pub bytes_read: u32,
}

/// A process-name request and its answer.
pub struct VacProcName {
    pub pid: u32,
    pub comm: [u8; 16],
}

/// A name field as text: decoded lossily, trailing NULs removed.
pub open spec fn comm_text(comm: Seq<u8>) -> Seq<char> {
    trim_trailing_nul(lossy_text(comm))
}

/// Reads a name field.
pub fn comm_string(comm: &[u8]) -> (s: String)
    ensures
        s@ == comm_text(comm@),
{
    let t = utf8_lossy_string(comm);
    let trimmed = crate::policy::trim_nul_end(t.as_str());
    String::from_str(trimmed)
}

/// The processes of a filled list: the first `count` records (at most the
/// records there are), with their names as text.
pub open spec fn spec_proc_list(count: u32, entries: Seq<VacProcEntry>) -> Seq<(u32, u32, Seq<char>)> {
    let n: int = if count as int <= entries.len() {
        count as int
    } else {
        entries.len() as int
    };
    Seq::new(n as nat, |i: int| (entries[i].pid, entries[i].ppid, comm_text(entries[i].comm@)))
}

/// Reads a filled process list.
pub fn decode_proc_list(list: &VacProcList) -> (procs: Vec<(u32, u32, String)>)
    ensures
        procs@.map_values(|p: (u32, u32, String)| (p.0, p.1, p.2@)) == spec_proc_list(
            list.count,
            list.entries@,
        ),
{
    let n = if (list.count as usize) <= list.entries.len() {
        list.count as usize
    } else {
        list.entries.len()
    };
    let mut procs: Vec<(u32, u32, String)> = Vec::new();
    let mut i: usize = 0;
    while i < n
        invariant
            i <= n <= list.entries@.len(),
            n == (if list.count as int <= list.entries@.len() { list.count as int } else { list.entries@.len() as int }),
            procs@.map_values(|p: (u32, u32, String)| (p.0, p.1, p.2@)) == spec_proc_list(
                list.count,
                list.entries@,
            ).subrange(0, i as int),
        decreases n - i,
    {
        let e = &list.entries[i];
        let name = comm_string(e.comm.as_slice());
        proof {
            assert(*e == list.entries@[i as int]);
            assert(name@ == comm_text(list.entries@[i as int].comm@));
        }
        let ghost before = procs@;
        procs.push((e.pid, e.ppid, name));
        proof {
            let sp = spec_proc_list(list.count, list.entries@);
            assert(procs@.map_values(|p: (u32, u32, String)| (p.0, p.1, p.2@)) =~= before.map_values(
                |p: (u32, u32, String)| (p.0, p.1, p.2@),
            ).push((e.pid, e.ppid, name@)));
            assert(sp[i as int] == (e.pid, e.ppid, name@));
            assert(sp.subrange(0, i + 1) =~= sp.subrange(0, i as int).push(sp[i as int]));
        }
        i = i + 1;
    }
    proof {
        assert(spec_proc_list(list.count, list.entries@).subrange(0, n as int) =~= spec_proc_list(
            list.count,
            list.entries@,
        ));
    }
    procs
}

/// Copies the bytes a read-memory request returned into `buf`.
pub fn copy_read_mem(r: &VacReadMem, buf: &mut Vec<u8>) -> (n: usize)
    requires
        r.bytes_read as int <= old(buf)@.len(),
        r.bytes_read <= VAC_READ_SIZE,
    ensures
        n == r.bytes_read,
        final(buf)@ == r.data@.subrange(0, n as int) + old(buf)@.subrange(n as int, old(buf)@.len() as int),
{
    let n = r.bytes_read as usize;
    let mut i: usize = 0;
    while i < n
        invariant
            i <= n,
            n == r.bytes_read,
            n <= VAC_READ_SIZE,
            n <= old(buf)@.len(),
            buf@.len() == old(buf)@.len(),
            forall|q: int| 0 <= q < i ==> buf@[q] == r.data@[q],
            forall|q: int| i <= q < buf@.len() ==> buf@[q] == old(buf)@[q],
        decreases n - i,
    {
        buf.set(i, r.data[i]);
        i = i + 1;
    }
    proof {
        assert(buf@ =~= r.data@.subrange(0, n as int) + old(buf)@.subrange(n as int, old(buf)@.len() as int));
    }
    n
}

} // verus!
