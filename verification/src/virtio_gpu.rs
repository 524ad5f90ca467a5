//! The virtio-GPU 2D driver: bringing the device up, and presenting the parts
//! of the screen that changed.
//!
//! The driver decides what is written to the device's registers and to the
//! queue page that it shares with the device; the registers themselves are
//! accessed outside, between the steps.
use vstd::prelude::*;

use crate::bytes;
use crate::cache;
use crate::frame_alloc;
use crate::frame_alloc::{FrameAllocator, MAX_FRAMES};
use crate::mem;
use crate::mem::PhysMem;

verus! {

pub const STATUS: u64 = 0x070;

pub const DEVICE_FEATURES: u64 = 0x010;

pub const DEVICE_FEATURES_SEL: u64 = 0x014;

pub const DRIVER_FEATURES: u64 = 0x020;

pub const DRIVER_FEATURES_SEL: u64 = 0x024;

pub const QUEUE_SEL: u64 = 0x030;

pub const QUEUE_NUM_MAX: u64 = 0x034;

pub const QUEUE_NUM: u64 = 0x038;

pub const QUEUE_READY: u64 = 0x044;

pub const QUEUE_NOTIFY: u64 = 0x050;

pub const QUEUE_DESC_LOW: u64 = 0x080;

pub const QUEUE_DESC_HIGH: u64 = 0x084;

pub const QUEUE_DRIVER_LOW: u64 = 0x090;

pub const QUEUE_DRIVER_HIGH: u64 = 0x094;

pub const QUEUE_DEVICE_LOW: u64 = 0x0A0;

pub const QUEUE_DEVICE_HIGH: u64 = 0x0A4;

/// Fields of the common configuration structure on PCI.
pub const CFG_DRIVER_FEATURE_SELECT: u64 = 8;

pub const CFG_DRIVER_FEATURE: u64 = 12;

pub const CFG_DEVICE_STATUS: u64 = 20;

pub const CFG_QUEUE_SELECT: u64 = 22;

pub const CFG_QUEUE_SIZE: u64 = 24;

pub const CFG_QUEUE_ENABLE: u64 = 28;

pub const CFG_QUEUE_NOTIFY_OFF: u64 = 30;

pub const CFG_QUEUE_DESC: u64 = 32;

pub const CFG_QUEUE_AVAIL: u64 = 40;

pub const CFG_QUEUE_USED: u64 = 48;

pub const STATUS_ACKNOWLEDGE: u32 = 1;

pub const STATUS_DRIVER: u32 = 2;

pub const STATUS_DRIVER_OK: u32 = 4;

pub const STATUS_FEATURES_OK: u32 = 8;

pub const VRING_DESC_F_NEXT: u16 = 1;

pub const VRING_DESC_F_WRITE: u16 = 2;

pub const CMD_GET_DISPLAY_INFO: u32 = 0x0100;

pub const CMD_RESOURCE_CREATE_2D: u32 = 0x0101;

pub const CMD_SET_SCANOUT: u32 = 0x0103;

pub const CMD_RESOURCE_FLUSH: u32 = 0x0104;

pub const CMD_TRANSFER_TO_HOST_2D: u32 = 0x0105;

pub const CMD_RESOURCE_ATTACH_BACKING: u32 = 0x0106;

pub const RESP_OK_NODATA: u32 = 0x1100;

pub const RESP_OK_DISPLAY_INFO: u32 = 0x1101;

pub const FORMAT_B8G8R8A8_UNORM: u32 = 1;

/// The layout of the queue page.
pub const QUEUE_SIZE: u16 = 16;

pub const AVAIL_OFFSET: u64 = 0x100;

pub const USED_OFFSET: u64 = 0x200;

pub const CMD_OFFSET: u64 = 0x400;

pub const RESP_OFFSET: u64 = 0x600;

pub const MMIO_BASE: u64 = 0x0a00_0000;

pub const MMIO_STRIDE: u64 = 0x200;

pub const VIRTIO_MAGIC: u32 = 0x7472_6976;

pub const GPU_DEVICE_ID: u32 = 16;

/// How often a device is asked whether its reset is done.
pub const RESET_SPINS: u32 = 1_000_000;

/// The place of the first GPU among what the slots say of themselves (magic
/// number and device id).
pub open spec fn gpu_slot(slots: Seq<(u32, u32)>, from: int) -> Option<int>
    decreases slots.len() - from,
{
    if from >= slots.len() {
        None
    } else if slots[from] == (VIRTIO_MAGIC, GPU_DEVICE_ID) {
        Some(from)
    } else {
        gpu_slot(slots, from + 1)
    }
}

/// The registers of the first GPU on the bus.
pub fn probe_gpu(slots: &Vec<(u32, u32)>) -> (r: Option<u64>)
    requires
        slots@.len() <= 32,
    ensures
        r == match gpu_slot(slots@, 0) {
            Some(i) => Some((MMIO_BASE + i * MMIO_STRIDE) as u64),
            None => None,
        },
{
    let mut i: usize = 0;
    while i < slots.len()
        invariant
            i <= slots@.len() <= 32,
            gpu_slot(slots@, 0) == gpu_slot(slots@, i as int),
        decreases slots@.len() - i,
    {
        if slots[i].0 == VIRTIO_MAGIC && slots[i].1 == GPU_DEVICE_ID {
            return Some(MMIO_BASE + i as u64 * MMIO_STRIDE);
        }
        i = i + 1;
    }
    None
}

/// The addresses of the cache lines to be cleaned before the device reads
/// `len` bytes from `start` on.
pub fn clean_cache_range(start: u64, len: u64) -> (r: Vec<u64>)
    requires
        start + len + 64 <= u64::MAX,
    ensures
        r@ == cache::lines(start, len, 64),
{
    cache::cache_lines(start, len, 64)
}

/// An access to a register of the device, or a notice that its queue has
/// something new.
#[derive(Clone, Copy, Debug, PartialEq, Eq, Structural)]
pub enum Op {
    Write8(u64, u8),
    Write16(u64, u16),
    Write32(u64, u32),
    Read8(u64),
    Read32(u64),
    Notify,
}

/// How the device is reached.
#[derive(Clone, Copy, Debug, PartialEq, Eq, Structural)]
pub enum Bus {
    Mmio,
    Pci,
}

/// What the driver waits for.
#[derive(Clone, Copy, Debug, PartialEq, Eq, Structural)]
pub enum Stage {
    Start,
    /// The status register is to read 0; so often it did not.
    Reset(u32),
    /// The status register tells whether the features are accepted.
    Features,
    /// The size of the queue.
    Queue,
    /// The answers to the commands.
    Info,
    Create,
    Attach,
    Scanout,
    Transfer,
    Flush,
    Ready,
}

#[derive(Clone, Copy, Debug, PartialEq, Eq, Structural)]
pub enum Failure {
    ResetStuck,
    FeaturesRejected,
    QueueTooSmall(u32),
    OutOfMemory,
    /// The device answered with this code.
    BadResponse(u32),
}

/// How often the device is asked whether it is done.
pub const MAX_POLLS: u32 = 1_000_000;

/// What asking the device gave.
#[derive(Clone, Copy, Debug, PartialEq, Eq, Structural)]
pub enum Poll {
    Done,
    Again,
    /// It was asked often enough.
    NotResponding,
}

#[derive(Clone, Copy, Debug, PartialEq, Eq, Structural)]
pub struct VirtioGpu {
    pub bus: Bus,
    pub stage: Stage,
    /// The page that holds the queue, the commands and the responses.
    pub queue_page: u64,
    /// How many chains were made available.
    pub avail_idx: u16,
    pub last_used_idx: u16,
    pub backing_phys: u64,
    pub width: u32,
    pub height: u32,
}

pub open spec fn le4(v: u32) -> Seq<u8> {
    bytes::le_bytes(v as int, 4)
}

pub open spec fn le8(v: u64) -> Seq<u8> {
    bytes::le_bytes(v as int, 8)
}

pub open spec fn le2(v: u16) -> Seq<u8> {
    bytes::le_bytes(v as int, 2)
}

/// The header that all commands share: the command, flags, a fence, a context
/// and padding.
pub open spec fn header(cmd: u32) -> Seq<u8> {
    le4(cmd) + le4(0) + le8(0) + le4(0) + le4(0)
}

pub open spec fn rect_bytes(x: u32, y: u32, w: u32, h: u32) -> Seq<u8> {
    le4(x) + le4(y) + le4(w) + le4(h)
}

pub open spec fn create_2d(id: u32, w: u32, h: u32) -> Seq<u8> {
    header(CMD_RESOURCE_CREATE_2D) + rect_bytes(id, FORMAT_B8G8R8A8_UNORM, w, h)
}

/// One entry of backing memory.
pub open spec fn attach_backing(id: u32, addr: u64, len: u64) -> Seq<u8> {
    header(CMD_RESOURCE_ATTACH_BACKING) + le4(id) + le4(1) + le8(addr) + le4(len as u32) + le4(0)
}

pub open spec fn scanout(scanout_id: u32, id: u32, w: u32, h: u32) -> Seq<u8> {
    header(CMD_SET_SCANOUT) + rect_bytes(0, 0, w, h) + le4(scanout_id) + le4(id)
}

/// Where the pixel at `(x, y)` is in the backing memory.
pub open spec fn pixel_offset(width: u32, x: u32, y: u32) -> int {
    (y * width + x) * 4
}

pub open spec fn transfer(width: u32, id: u32, x: u32, y: u32, w: u32, h: u32) -> Seq<u8> {
    header(CMD_TRANSFER_TO_HOST_2D) + rect_bytes(x, y, w, h) + le8(
        pixel_offset(width, x, y) as u64,
    ) + le4(id) + le4(0)
}

pub open spec fn flush(id: u32, x: u32, y: u32, w: u32, h: u32) -> Seq<u8> {
    header(CMD_RESOURCE_FLUSH) + rect_bytes(x, y, w, h) + le4(id) + le4(0)
}

fn push_header(out: &mut Vec<u8>, cmd: u32)
    requires
        old(out)@ == Seq::<u8>::empty(),
    ensures
        final(out)@ == header(cmd),
{
    bytes::push_le(out, cmd as u64, 4);
    bytes::push_le(out, 0, 4);
    bytes::push_le(out, 0, 8);
    bytes::push_le(out, 0, 4);
    bytes::push_le(out, 0, 4);
    assert(out@ =~= header(cmd));
}

fn push_rect(out: &mut Vec<u8>, x: u32, y: u32, w: u32, h: u32)
    ensures
        final(out)@ == old(out)@ + rect_bytes(x, y, w, h),
{
    bytes::push_le(out, x as u64, 4);
    bytes::push_le(out, y as u64, 4);
    bytes::push_le(out, w as u64, 4);
    bytes::push_le(out, h as u64, 4);
    assert(out@ =~= old(out)@ + rect_bytes(x, y, w, h));
}

proof fn lemma_lens(v4: u32, v8: u64, v2: u16)
    ensures
        le4(v4).len() == 4,
        le8(v8).len() == 8,
        le2(v2).len() == 2,
{
    bytes::lemma_le_bytes_len(v4 as int, 4);
    bytes::lemma_le_bytes_len(v8 as int, 8);
    bytes::lemma_le_bytes_len(v2 as int, 2);
}

proof fn lemma_header_len(cmd: u32)
    ensures
        header(cmd).len() == 24,
{
    lemma_lens(cmd, 0, 0);
    lemma_lens(0, 0, 0);
}

proof fn lemma_rect_len(x: u32, y: u32, w: u32, h: u32)
    ensures
        rect_bytes(x, y, w, h).len() == 16,
{
    lemma_lens(x, 0, 0);
    lemma_lens(y, 0, 0);
    lemma_lens(w, 0, 0);
    lemma_lens(h, 0, 0);
}

fn create_command(id: u32, w: u32, h: u32) -> (c: Vec<u8>)
    ensures
        c@ == create_2d(id, w, h),
        c@.len() == 40,
{
    proof {
        lemma_header_len(CMD_RESOURCE_CREATE_2D);
        lemma_rect_len(id, FORMAT_B8G8R8A8_UNORM, w, h);
    }
    let mut c: Vec<u8> = Vec::new();
    push_header(&mut c, CMD_RESOURCE_CREATE_2D);
    push_rect(&mut c, id, FORMAT_B8G8R8A8_UNORM, w, h);
    c
}

fn attach_command(id: u32, addr: u64, len: u64) -> (c: Vec<u8>)
    ensures
        c@ == attach_backing(id, addr, len),
        c@.len() == 48,
{
    proof {
        lemma_header_len(CMD_RESOURCE_ATTACH_BACKING);
        lemma_lens(id, addr, 0);
        lemma_lens(1, addr, 0);
        lemma_lens(len as u32, addr, 0);
        lemma_lens(0, addr, 0);
    }
    let mut c: Vec<u8> = Vec::new();
    push_header(&mut c, CMD_RESOURCE_ATTACH_BACKING);
    bytes::push_le(&mut c, id as u64, 4);
    bytes::push_le(&mut c, 1, 4);
    bytes::push_le(&mut c, addr, 8);
    bytes::push_le(&mut c, (len as u32) as u64, 4);
    bytes::push_le(&mut c, 0, 4);
    c
}

fn scanout_command(scanout_id: u32, id: u32, w: u32, h: u32) -> (c: Vec<u8>)
    ensures
        c@ == scanout(scanout_id, id, w, h),
        c@.len() == 48,
{
    proof {
        lemma_header_len(CMD_SET_SCANOUT);
        lemma_rect_len(0, 0, w, h);
        lemma_lens(scanout_id, 0, 0);
        lemma_lens(id, 0, 0);
    }
    let mut c: Vec<u8> = Vec::new();
    push_header(&mut c, CMD_SET_SCANOUT);
    push_rect(&mut c, 0, 0, w, h);
    bytes::push_le(&mut c, scanout_id as u64, 4);
    bytes::push_le(&mut c, id as u64, 4);
    c
}

fn transfer_command(width: u32, id: u32, x: u32, y: u32, w: u32, h: u32) -> (c: Vec<u8>)
    requires
        pixel_offset(width, x, y) <= u64::MAX,
    ensures
        c@ == transfer(width, id, x, y, w, h),
        c@.len() == 56,
{
    proof {
        lemma_header_len(CMD_TRANSFER_TO_HOST_2D);
        lemma_rect_len(x, y, w, h);
        lemma_lens(id, pixel_offset(width, x, y) as u64, 0);
        lemma_lens(0, 0, 0);
        assert(0 <= y * width) by (nonlinear_arith)
            requires
                y >= 0,
                width >= 0,
        ;
    }
    let offset: u64 = (y as u64 * width as u64 + x as u64) * 4;
    let mut c: Vec<u8> = Vec::new();
    push_header(&mut c, CMD_TRANSFER_TO_HOST_2D);
    push_rect(&mut c, x, y, w, h);
    bytes::push_le(&mut c, offset, 8);
    bytes::push_le(&mut c, id as u64, 4);
    bytes::push_le(&mut c, 0, 4);
    c
}

fn flush_command(id: u32, x: u32, y: u32, w: u32, h: u32) -> (c: Vec<u8>)
    ensures
        c@ == flush(id, x, y, w, h),
        c@.len() == 48,
{
    proof {
        lemma_header_len(CMD_RESOURCE_FLUSH);
        lemma_rect_len(x, y, w, h);
        lemma_lens(id, 0, 0);
        lemma_lens(0, 0, 0);
    }
    let mut c: Vec<u8> = Vec::new();
    push_header(&mut c, CMD_RESOURCE_FLUSH);
    push_rect(&mut c, x, y, w, h);
    bytes::push_le(&mut c, id as u64, 4);
    bytes::push_le(&mut c, 0, 4);
    c
}

/// A command and zeros after it, `room` bytes in all.
pub open spec fn filled(cmd: Seq<u8>, room: int) -> Seq<u8> {
    cmd + zeros(room - cmd.len())
}

pub open spec fn zeros(n: int) -> Seq<u8> {
    Seq::new(n as nat, |i: int| 0u8)
}

/// A descriptor of the queue: where, how long, whether it is written or goes
/// on, and with which descriptor.
pub open spec fn descriptor(addr: u64, len: u32, flags: u16, next: u16) -> Seq<u8> {
    le8(addr) + le4(len) + le2(flags) + le2(next)
}

/// Memory with a command made available to the device in one of two places:
/// the command, room for the response, two descriptors that chain them, and an
/// entry of the ring.
pub open spec fn posted(
    m: Seq<u8>,
    page: u64,
    avail: u16,
    cmd: Seq<u8>,
    room: int,
    slot: int,
    resp_len: u32,
) -> Seq<u8> {
    let cmd_at = page + CMD_OFFSET + 128 * slot;
    let resp_at = page + RESP_OFFSET + 64 * slot;
    let m1 = mem::splice(m, cmd_at, filled(cmd, room));
    let m2 = if slot == 0 {
        mem::splice(m1, resp_at, zeros(resp_len as int))
    } else {
        m1
    };
    let m3 = mem::splice(
        m2,
        page + 32 * slot,
        descriptor(cmd_at as u64, cmd.len() as u32, VRING_DESC_F_NEXT, (2 * slot + 1) as u16),
    );
    let m4 = mem::splice(
        m3,
        page + 32 * slot + 16,
        descriptor(resp_at as u64, resp_len, VRING_DESC_F_WRITE, 0),
    );
    let m5 = mem::splice(
        m4,
        page + AVAIL_OFFSET + 4 + 2 * (avail % QUEUE_SIZE),
        le2((2 * slot) as u16),
    );
    mem::splice(m5, page + AVAIL_OFFSET + 2, le2(avail.wrapping_add(1)))
}

/// How the device is reset and asked to accept the driver.
pub open spec fn negotiation(bus: Bus) -> Seq<Op> {
    match bus {
        Bus::Mmio => seq![
            Op::Write32(STATUS, 0),
            Op::Write32(STATUS, 1),
            Op::Write32(STATUS, 3),
            Op::Write32(DEVICE_FEATURES_SEL, 0),
            Op::Read32(DEVICE_FEATURES),
            Op::Write32(DRIVER_FEATURES_SEL, 0),
            Op::Write32(DRIVER_FEATURES, 0),
            Op::Write32(STATUS, 11),
            Op::Read32(STATUS),
        ],
        Bus::Pci => seq![
            Op::Write8(CFG_DEVICE_STATUS, 1),
            Op::Write8(CFG_DEVICE_STATUS, 3),
            Op::Write32(CFG_DRIVER_FEATURE_SELECT, 0),
            Op::Write32(CFG_DRIVER_FEATURE, 0),
            Op::Write32(CFG_DRIVER_FEATURE_SELECT, 1),
            Op::Write32(CFG_DRIVER_FEATURE, 1),
            Op::Write8(CFG_DEVICE_STATUS, 11),
            Op::Read8(CFG_DEVICE_STATUS),
        ],
    }
}

fn negotiate(bus: Bus) -> (r: Vec<Op>)
    ensures
        r@ == negotiation(bus),
{
    let r: Vec<Op> = match bus {
        Bus::Mmio => vec![
            Op::Write32(STATUS, 0),
            Op::Write32(STATUS, STATUS_ACKNOWLEDGE),
            Op::Write32(STATUS, STATUS_ACKNOWLEDGE + STATUS_DRIVER),
            Op::Write32(DEVICE_FEATURES_SEL, 0),
            Op::Read32(DEVICE_FEATURES),
            Op::Write32(DRIVER_FEATURES_SEL, 0),
            Op::Write32(DRIVER_FEATURES, 0),
            Op::Write32(STATUS, STATUS_ACKNOWLEDGE + STATUS_DRIVER + STATUS_FEATURES_OK),
            Op::Read32(STATUS),
        ],
        Bus::Pci => vec![
            Op::Write8(CFG_DEVICE_STATUS, 1),
            Op::Write8(CFG_DEVICE_STATUS, 3),
            Op::Write32(CFG_DRIVER_FEATURE_SELECT, 0),
            Op::Write32(CFG_DRIVER_FEATURE, 0),
            Op::Write32(CFG_DRIVER_FEATURE_SELECT, 1),
            Op::Write32(CFG_DRIVER_FEATURE, 1),
            Op::Write8(CFG_DEVICE_STATUS, 11),
            Op::Read8(CFG_DEVICE_STATUS),
        ],
    };
    assert(r@ =~= negotiation(bus));
    r
}

pub open spec fn low(v: int) -> u32 {
    (v % 0x1_0000_0000) as u32
}

pub open spec fn high(v: int) -> u32 {
    (v / 0x1_0000_0000) as u32
}

/// How the device is told where its queue is, and that the driver is ready.
pub open spec fn queue_setup(bus: Bus, page: u64) -> Seq<Op> {
    let (desc, avail, used) = (page as int, page + AVAIL_OFFSET, page + USED_OFFSET);
    match bus {
        Bus::Mmio => seq![
            Op::Write32(QUEUE_NUM, QUEUE_SIZE as u32),
            Op::Write32(QUEUE_DESC_LOW, low(desc)),
            Op::Write32(QUEUE_DESC_HIGH, high(desc)),
            Op::Write32(QUEUE_DRIVER_LOW, low(avail)),
            Op::Write32(QUEUE_DRIVER_HIGH, high(avail)),
            Op::Write32(QUEUE_DEVICE_LOW, low(used)),
            Op::Write32(QUEUE_DEVICE_HIGH, high(used)),
            Op::Write32(QUEUE_READY, 1),
            Op::Write32(STATUS, 15),
            Op::Notify,
        ],
        Bus::Pci => seq![
            Op::Write32(CFG_QUEUE_DESC, low(desc)),
            Op::Write32((CFG_QUEUE_DESC + 4) as u64, high(desc)),
            Op::Write32(CFG_QUEUE_AVAIL, low(avail)),
            Op::Write32((CFG_QUEUE_AVAIL + 4) as u64, high(avail)),
            Op::Write32(CFG_QUEUE_USED, low(used)),
            Op::Write32((CFG_QUEUE_USED + 4) as u64, high(used)),
            Op::Write16(CFG_QUEUE_ENABLE, 1),
            Op::Write8(CFG_DEVICE_STATUS, 15),
            Op::Notify,
        ],
    }
}

fn set_up_queue(bus: Bus, page: u64) -> (r: Vec<Op>)
    requires
        page + 4096 <= u64::MAX,
    ensures
        r@ == queue_setup(bus, page),
{
    let avail: u64 = page + AVAIL_OFFSET;
    let used: u64 = page + USED_OFFSET;
    let (dl, dh): (u32, u32) = ((page % 0x1_0000_0000) as u32, (page / 0x1_0000_0000) as u32);
    let (al, ah): (u32, u32) = ((avail % 0x1_0000_0000) as u32, (avail / 0x1_0000_0000) as u32);
    let (ul, uh): (u32, u32) = ((used % 0x1_0000_0000) as u32, (used / 0x1_0000_0000) as u32);
    let r: Vec<Op> = match bus {
        Bus::Mmio => vec![
            Op::Write32(QUEUE_NUM, QUEUE_SIZE as u32),
            Op::Write32(QUEUE_DESC_LOW, dl),
            Op::Write32(QUEUE_DESC_HIGH, dh),
            Op::Write32(QUEUE_DRIVER_LOW, al),
            Op::Write32(QUEUE_DRIVER_HIGH, ah),
            Op::Write32(QUEUE_DEVICE_LOW, ul),
            Op::Write32(QUEUE_DEVICE_HIGH, uh),
            Op::Write32(QUEUE_READY, 1),
            Op::Write32(
                STATUS,
                STATUS_ACKNOWLEDGE + STATUS_DRIVER + STATUS_FEATURES_OK + STATUS_DRIVER_OK,
            ),
            Op::Notify,
        ],
        Bus::Pci => vec![
            Op::Write32(CFG_QUEUE_DESC, dl),
            Op::Write32(CFG_QUEUE_DESC + 4, dh),
            Op::Write32(CFG_QUEUE_AVAIL, al),
            Op::Write32(CFG_QUEUE_AVAIL + 4, ah),
            Op::Write32(CFG_QUEUE_USED, ul),
            Op::Write32(CFG_QUEUE_USED + 4, uh),
            Op::Write16(CFG_QUEUE_ENABLE, 1),
            Op::Write8(CFG_DEVICE_STATUS, 15),
            Op::Notify,
        ],
    };
    assert(r@ =~= queue_setup(bus, page));
    r
}

/// The size of the display, from the device's answer. Without one that makes
/// sense, a size that any display has.
pub open spec fn display_size(bus: Bus, m: Seq<u8>, page: u64) -> (u32, u32) {
    let resp = page + RESP_OFFSET;
    let (w, h) = (mem::word32(m, resp + 32), mem::word32(m, resp + 36));
    let known = mem::word32(m, resp) == RESP_OK_DISPLAY_INFO;
    match bus {
        Bus::Mmio => if !known || w == 0 || h == 0 {
            (800, 600)
        } else {
            (w, h)
        },
        Bus::Pci => if !known {
            (1280, 800)
        } else {
            (w, h)
        },
    }
}

/// The number of frames that hold the display's pixels.
pub open spec fn backing_pages(w: u32, h: u32) -> int {
    (w * h * 4 + 4095) / 4096
}

/// `free1` is `free0` without the first `count` frames in a row, which begin at
/// the address `phys`.
pub open spec fn taken(free0: Set<int>, free1: Set<int>, phys: u64, count: int) -> bool {
    &&& phys % 4096 == 0
    &&& frame_alloc::run(phys as int / 4096, count).subset_of(free0)
    &&& forall|t: int|
        0 <= t < phys as int / 4096 ==> !#[trigger] frame_alloc::run(t, count).subset_of(free0)
    &&& free1 == free0.difference(frame_alloc::run(phys as int / 4096, count))
}

/// No `count` frames in a row are free.
pub open spec fn none_free(free: Set<int>, count: int) -> bool {
    count == 0 || forall|t: int| !#[trigger] frame_alloc::run(t, count).subset_of(free)
}

/// The driver and memory once `cmd` was made available in the first place.
pub open spec fn sent(g0: VirtioGpu, g1: VirtioGpu, m0: Seq<u8>, m1: Seq<u8>, cmd: Seq<u8>, resp: u32, stage: Stage) -> bool {
    &&& g1 == (VirtioGpu { stage, avail_idx: g0.avail_idx.wrapping_add(1), ..g0 })
    &&& m1 == posted(m0, g0.queue_page, g0.avail_idx, cmd, 512, 0, resp)
}

/// What one step of bringing the device up changes, and what it returns: the
/// accesses to make before the next, or why there is none.
pub open spec fn stepped(
    g0: VirtioGpu,
    g1: VirtioGpu,
    m0: Seq<u8>,
    m1: Seq<u8>,
    free0: Set<int>,
    free1: Set<int>,
    reading: u32,
    r: Result<Seq<Op>, Failure>,
) -> bool {
    let page = g0.queue_page;
    let answer = mem::word32(m0, page + RESP_OFFSET);
    let still = m1 == m0 && free1 == free0;
    let notify = Ok::<Seq<Op>, Failure>(seq![Op::Notify]);
    match g0.stage {
        Stage::Start => {
            &&& still
            &&& match g0.bus {
                Bus::Mmio => {
                    &&& r == Ok::<Seq<Op>, Failure>(negotiation(Bus::Mmio))
                    &&& g1 == (VirtioGpu { stage: Stage::Features, ..g0 })
                },
                Bus::Pci => {
                    &&& r == Ok::<Seq<Op>, Failure>(
                        seq![Op::Write8(CFG_DEVICE_STATUS, 0), Op::Read8(CFG_DEVICE_STATUS)],
                    )
                    &&& g1 == (VirtioGpu { stage: Stage::Reset(0), ..g0 })
                },
            }
        },
        Stage::Reset(n) => {
            &&& still
            &&& if reading == 0 {
                &&& r == Ok::<Seq<Op>, Failure>(negotiation(Bus::Pci))
                &&& g1 == (VirtioGpu { stage: Stage::Features, ..g0 })
            } else if n >= RESET_SPINS {
                r == Err::<Seq<Op>, Failure>(Failure::ResetStuck) && g1 == g0
            } else {
                &&& r == Ok::<Seq<Op>, Failure>(seq![Op::Read8(CFG_DEVICE_STATUS)])
                &&& g1 == (VirtioGpu { stage: Stage::Reset((n + 1) as u32), ..g0 })
            }
        },
        Stage::Features => {
            &&& still
            &&& if reading & STATUS_FEATURES_OK == 0 {
                r == Err::<Seq<Op>, Failure>(Failure::FeaturesRejected) && g1 == g0
            } else {
                &&& r == Ok::<Seq<Op>, Failure>(
                    match g0.bus {
                        Bus::Mmio => seq![Op::Write32(QUEUE_SEL, 0), Op::Read32(QUEUE_NUM_MAX)],
                        Bus::Pci => seq![
                            Op::Write16(CFG_QUEUE_SELECT, 0),
                            Op::Write16(CFG_QUEUE_SIZE, QUEUE_SIZE),
                        ],
                    },
                )
                &&& g1 == (VirtioGpu { stage: Stage::Queue, ..g0 })
            }
        },
        Stage::Queue => if g0.bus == Bus::Mmio && reading < QUEUE_SIZE {
            still && r == Err::<Seq<Op>, Failure>(Failure::QueueTooSmall(reading)) && g1 == g0
        } else {
            match r {
                Err(e) => still && e == Failure::OutOfMemory && g1 == g0 && none_free(free0, 1),
                Ok(ops) => {
                    let q = g1.queue_page;
                    &&& taken(free0, free1, q, 1)
                    &&& ops == queue_setup(g0.bus, q)
                    &&& sent(
                        VirtioGpu { queue_page: q, ..g0 },
                        g1,
                        mem::splice(m0, q as int, zeros(4096)),
                        m1,
                        header(CMD_GET_DISPLAY_INFO),
                        408,
                        Stage::Info,
                    )
                },
            }
        },
        Stage::Info => {
            let (w, h) = display_size(g0.bus, m0, page);
            &&& r == notify
            &&& free1 == free0
            &&& sent(
                VirtioGpu { width: w, height: h, ..g0 },
                g1,
                m0,
                m1,
                create_2d(1, w, h),
                24,
                Stage::Create,
            )
        },
        Stage::Ready => still && r == Ok::<Seq<Op>, Failure>(Seq::empty()) && g1 == g0,
        _ => if answer != RESP_OK_NODATA {
            still && r == Err::<Seq<Op>, Failure>(Failure::BadResponse(answer)) && g1 == g0
        } else {
            let (w, h) = (g0.width, g0.height);
            match g0.stage {
                Stage::Create => match r {
                    Err(e) => {
                        &&& still
                        &&& e == Failure::OutOfMemory
                        &&& g1 == g0
                        &&& none_free(free0, backing_pages(w, h))
                    },
                    Ok(ops) => {
                        let b = g1.backing_phys;
                        &&& taken(free0, free1, b, backing_pages(w, h))
                        &&& ops == seq![Op::Notify]
                        &&& sent(
                            VirtioGpu { backing_phys: b, ..g0 },
                            g1,
                            mem::splice(m0, b as int, zeros(w * h * 4)),
                            m1,
                            attach_backing(1, b, (w * h * 4) as u64),
                            24,
                            Stage::Attach,
                        )
                    },
                },
                Stage::Attach => r == notify && free1 == free0 && sent(
                    g0,
                    g1,
                    m0,
                    m1,
                    scanout(0, 1, w, h),
                    24,
                    Stage::Scanout,
                ),
                Stage::Scanout => r == notify && free1 == free0 && sent(
                    g0,
                    g1,
                    m0,
                    m1,
                    transfer(w, 1, 0, 0, w, h),
                    24,
                    Stage::Transfer,
                ),
                Stage::Transfer => r == notify && free1 == free0 && sent(
                    g0,
                    g1,
                    m0,
                    m1,
                    flush(1, 0, 0, w, h),
                    24,
                    Stage::Flush,
                ),
                _ => {
                    &&& still
                    &&& r == Ok::<Seq<Op>, Failure>(Seq::empty())
                    &&& g1 == (VirtioGpu { stage: Stage::Ready, ..g0 })
                },
            }
        },
    }
}

pub open spec fn ops_of(r: Result<Vec<Op>, Failure>) -> Result<Seq<Op>, Failure> {
    match r {
        Ok(v) => Ok(v@),
        Err(e) => Err(e),
    }
}

/// Every free frame lies in memory.
pub open spec fn frames_in(free: Set<int>, size: int) -> bool {
    forall|f: int| #[trigger] free.contains(f) ==> 0 < f && (f + 1) * 4096 <= size
}

impl VirtioGpu {
    /// A device that was not brought up yet.
    pub fn new(bus: Bus) -> (g: VirtioGpu)
        ensures
            g == (VirtioGpu {
                bus,
                stage: Stage::Start,
                queue_page: 0,
                avail_idx: 0,
                last_used_idx: 0,
                backing_phys: 0,
                width: 0,
                height: 0,
            }),
    {
        VirtioGpu {
            bus,
            stage: Stage::Start,
            queue_page: 0,
            avail_idx: 0,
            last_used_idx: 0,
            backing_phys: 0,
            width: 0,
            height: 0,
        }
    }

    /// The queue page lies in memory.
    pub open spec fn wf(&self, size: int) -> bool {
        self.queue_page + 4096 <= size
    }

    /// Makes a command available to the device.
    fn post(
        &mut self,
        m: &mut PhysMem,
        cmd: &Vec<u8>,
        room: usize,
        slot: u64,
        resp_len: u32,
    )
        requires
            old(self).wf(old(m)@.len() as int),
            slot <= 1,
            cmd@.len() <= room,
            slot == 0 ==> room <= 512,
            slot == 1 ==> room <= 128,
            resp_len <= 408,
        ensures
            *final(self) == (VirtioGpu {
                avail_idx: old(self).avail_idx.wrapping_add(1),
                ..*old(self)
            }),
            final(m)@ == posted(
                old(m)@,
                old(self).queue_page,
                old(self).avail_idx,
                cmd@,
                room as int,
                slot as int,
                resp_len,
            ),
            final(m)@.len() == old(m)@.len(),
    {
        let ghost m0 = m@;
        proof {
            m.lemma_size();
        }
        let page: u64 = self.queue_page;
        let cmd_at: u64 = page + CMD_OFFSET + 128 * slot;
        let resp_at: u64 = page + RESP_OFFSET + 64 * slot;
        let mut full: Vec<u8> = cmd.clone();
        assert(full@ =~= cmd@);
        while full.len() < room
            invariant
                cmd@.len() <= full@.len() <= room,
                forall|i: int| 0 <= i < cmd@.len() ==> #[trigger] full@[i] == cmd@[i],
                forall|i: int| cmd@.len() <= i < full@.len() ==> #[trigger] full@[i] == 0,
            decreases room - full@.len(),
        {
            full.push(0);
        }
        assert(full@ =~= filled(cmd@, room as int));
        m.write_slice(cmd_at, full.as_slice());
        if slot == 0 {
            m.zero(resp_at, resp_len as u64);
            assert(Seq::new(resp_len as nat, |i: int| 0u8) =~= zeros(resp_len as int));
        }
        let d0: Vec<u8> = describe(
            cmd_at,
            cmd.len() as u32,
            VRING_DESC_F_NEXT,
            (2 * slot + 1) as u16,
        );
        m.write_slice(page + 32 * slot, d0.as_slice());
        let d1: Vec<u8> = describe(resp_at, resp_len, VRING_DESC_F_WRITE, 0);
        m.write_slice(page + 32 * slot + 16, d1.as_slice());
        let mut entry: Vec<u8> = Vec::new();
        bytes::push_le(&mut entry, 2 * slot, 2);
        assert(entry@ =~= le2((2 * slot) as u16));
        proof {
            bytes::lemma_le_bytes_len((2 * slot) as int, 2);
        }
        let ring: u64 = (self.avail_idx % QUEUE_SIZE) as u64;
        m.write_slice(page + AVAIL_OFFSET + 4 + 2 * ring, entry.as_slice());
        self.avail_idx = self.avail_idx.wrapping_add(1);
        let mut idx: Vec<u8> = Vec::new();
        bytes::push_le(&mut idx, self.avail_idx as u64, 2);
        assert(idx@ =~= le2(self.avail_idx));
        proof {
            bytes::lemma_le_bytes_len(self.avail_idx as int, 2);
        }
        m.write_slice(page + AVAIL_OFFSET + 2, idx.as_slice());
    }

    fn answer(&self, m: &PhysMem, slot: u64) -> (r: u32)
        requires
            self.wf(m@.len() as int),
            slot <= 1,
        ensures
            r == mem::word32(m@, self.queue_page + RESP_OFFSET + 64 * slot),
    {
        proof {
            m.lemma_size();
        }
        m.read_u32(self.queue_page + RESP_OFFSET + 64 * slot)
    }

    /// Whether the device is done with `count` more chains. `attempt` counts how
    /// often it was asked before; it is given up after `MAX_POLLS` times.
    pub fn poll_used(&mut self, m: &PhysMem, count: u16, attempt: u32) -> (r: Poll)
        requires
            old(self).wf(m@.len() as int),
        ensures
            ({
                let target = old(self).last_used_idx.wrapping_add(count);
                if bytes::le(m@, old(self).queue_page + USED_OFFSET + 2, 2) == target {
                    &&& r == Poll::Done
                    &&& *final(self) == (VirtioGpu { last_used_idx: target, ..*old(self) })
                } else {
                    &&& r == if attempt + 1 < MAX_POLLS {
                        Poll::Again
                    } else {
                        Poll::NotResponding
                    }
                    &&& *final(self) == *old(self)
                }
            }),
    {
        proof {
            m.lemma_size();
        }
        let at: u64 = self.queue_page + USED_OFFSET + 2;
        let target: u16 = self.last_used_idx.wrapping_add(count);
        proof {
            reveal_with_fuel(bytes::le, 3);
        }
        let used: u16 = m.read_byte(at) as u16 + 256 * (m.read_byte(at + 1) as u16);
        if used == target {
            self.last_used_idx = target;
            Poll::Done
        } else if attempt < MAX_POLLS - 1 {
            Poll::Again
        } else {
            Poll::NotResponding
        }
    }

    /// Posts `cmd` and goes to `stage`.
    fn send(&mut self, m: &mut PhysMem, cmd: &Vec<u8>, resp_len: u32, stage: Stage)
        requires
            old(self).wf(old(m)@.len() as int),
            cmd@.len() <= 512,
            resp_len <= 408,
        ensures
            sent(*old(self), *final(self), old(m)@, final(m)@, cmd@, resp_len, stage),
            final(self).wf(final(m)@.len() as int),
            final(m)@.len() == old(m)@.len(),
    {
        self.post(m, cmd, 512, 0, resp_len);
        self.stage = stage;
    }
}

fn describe(addr: u64, len: u32, flags: u16, next: u16) -> (r: Vec<u8>)
    ensures
        r@ == descriptor(addr, len, flags, next),
        r@.len() == 16,
{
    proof {
        lemma_lens(len, addr, flags);
        lemma_lens(len, addr, next);
    }
    let mut r: Vec<u8> = Vec::new();
    bytes::push_le(&mut r, addr, 8);
    bytes::push_le(&mut r, len as u64, 4);
    bytes::push_le(&mut r, flags as u64, 2);
    bytes::push_le(&mut r, next as u64, 2);
    assert(r@ =~= descriptor(addr, len, flags, next));
    r
}

/// Every byte of `count` free frames in a row lies in memory.
proof fn lemma_run_in_memory(free: Set<int>, size: int, phys: u64, count: int)
    requires
        frames_in(free, size),
        phys % 4096 == 0,
        count > 0,
        frame_alloc::run(phys as int / 4096, count).subset_of(free),
    ensures
        phys + 4096 * count <= size,
{
    let last = phys as int / 4096 + count - 1;
    assert(frame_alloc::run(phys as int / 4096, count).contains(last));
    assert(free.contains(last));
}

impl VirtioGpu {
    fn open_queue(&mut self, m: &mut PhysMem, fa: &mut FrameAllocator) -> (r: Result<
        Vec<Op>,
        Failure,
    >)
        requires
            old(fa).wf(),
            frames_in(old(fa)@, old(m)@.len() as int),
        ensures
            final(fa).wf(),
            final(m)@.len() == old(m)@.len(),
            r is Ok ==> final(self).wf(final(m)@.len() as int),
            match r {
                Err(e) => {
                    &&& e == Failure::OutOfMemory
                    &&& final(m)@ == old(m)@
                    &&& final(fa)@ == old(fa)@
                    &&& *final(self) == *old(self)
                    &&& none_free(old(fa)@, 1)
                },
                Ok(ops) => {
                    let q = final(self).queue_page;
                    &&& taken(old(fa)@, final(fa)@, q, 1)
                    &&& ops@ == queue_setup(old(self).bus, q)
                    &&& sent(
                        (VirtioGpu { queue_page: q, ..*old(self) }),
                        *final(self),
                        mem::splice(old(m)@, q as int, zeros(4096)),
                        final(m)@,
                        header(CMD_GET_DISPLAY_INFO),
                        408,
                        Stage::Info,
                    )
                },
            },
    {
        let ghost free0 = fa@;
        let page: u64 = match frame_alloc::allocate_contiguous(fa, 1) {
            None => {
                return Err(Failure::OutOfMemory);
            },
            Some(page) => page,
        };
        proof {
            lemma_run_in_memory(free0, m@.len() as int, page, 1);
            m.lemma_size();
            lemma_header_len(CMD_GET_DISPLAY_INFO);
        }
        m.zero(page, 4096);
        assert(Seq::new(4096, |i: int| 0u8) =~= zeros(4096));
        self.queue_page = page;
        let mut cmd: Vec<u8> = Vec::new();
        push_header(&mut cmd, CMD_GET_DISPLAY_INFO);
        let ops: Vec<Op> = set_up_queue(self.bus, page);
        self.send(m, &cmd, 408, Stage::Info);
        Ok(ops)
    }

    fn attach(&mut self, m: &mut PhysMem, fa: &mut FrameAllocator) -> (r: Result<Vec<Op>, Failure>)
        requires
            old(fa).wf(),
            frames_in(old(fa)@, old(m)@.len() as int),
            old(self).wf(old(m)@.len() as int),
        ensures
            final(fa).wf(),
            final(m)@.len() == old(m)@.len(),
            final(self).wf(final(m)@.len() as int),
            ({
                let (w, h) = (old(self).width, old(self).height);
                match r {
                    Err(e) => {
                        &&& e == Failure::OutOfMemory
                        &&& final(m)@ == old(m)@
                        &&& final(fa)@ == old(fa)@
                        &&& *final(self) == *old(self)
                        &&& none_free(old(fa)@, backing_pages(w, h))
                    },
                    Ok(ops) => {
                        let b = final(self).backing_phys;
                        &&& taken(old(fa)@, final(fa)@, b, backing_pages(w, h))
                        &&& ops@ == seq![Op::Notify]
                        &&& sent(
                            (VirtioGpu { backing_phys: b, ..*old(self) }),
                            *final(self),
                            mem::splice(old(m)@, b as int, zeros(w * h * 4)),
                            final(m)@,
                            attach_backing(1, b, (w * h * 4) as u64),
                            24,
                            Stage::Attach,
                        )
                    },
                }
            }),
    {
        let ghost free0 = fa@;
        let (w, h): (u32, u32) = (self.width, self.height);
        proof {
            assert(0 <= w * h <= 0xFFFF_FFFF * 0xFFFF_FFFF) by (nonlinear_arith)
                requires
                    0 <= w <= 0xFFFF_FFFF,
                    0 <= h <= 0xFFFF_FFFF,
            ;
        }
        let pixels: u64 = w as u64 * h as u64;
        if pixels > MAX_FRAMES as u64 * 1024 {
            proof {
                let n = backing_pages(w, h);
                assert(n > MAX_FRAMES);
                assert forall|t: int| !#[trigger] frame_alloc::run(t, n).subset_of(free0) by {
                    if frame_alloc::run(t, n).subset_of(free0) {
                        assert(frame_alloc::run(t, n).contains(t));
                        assert(frame_alloc::run(t, n).contains(t + n - 1));
                        frame_alloc::law_free_frames_in_range(*fa, t);
                        frame_alloc::law_free_frames_in_range(*fa, t + n - 1);
                    }
                }
            }
            return Err(Failure::OutOfMemory);
        }
        let pages: usize = ((pixels * 4 + 4095) / 4096) as usize;
        let backing: u64 = match frame_alloc::allocate_contiguous(fa, pages) {
            None => {
                return Err(Failure::OutOfMemory);
            },
            Some(backing) => backing,
        };
        proof {
            lemma_run_in_memory(free0, m@.len() as int, backing, pages as int);
        }
        m.zero(backing, pixels * 4);
        assert(Seq::new((pixels * 4) as nat, |i: int| 0u8) =~= zeros(w * h * 4));
        self.backing_phys = backing;
        let cmd: Vec<u8> = attach_command(1, backing, pixels * 4);
        self.send(m, &cmd, 24, Stage::Attach);
        let ops: Vec<Op> = vec![Op::Notify];
        assert(ops@ =~= seq![Op::Notify]);
        Ok(ops)
    }

    /// One step of bringing the device up: resets it, negotiates, opens the
    /// queue, asks for the display's size, creates the resource, attaches its
    /// memory, shows it, and sends the first frame. `reading` is what the last
    /// read of the step before gave; where that step notified the device, the
    /// device must be done with the command (`poll_used`).
    pub fn init(&mut self, m: &mut PhysMem, fa: &mut FrameAllocator, reading: u32) -> (r: Result<
        Vec<Op>,
        Failure,
    >)
        requires
            old(fa).wf(),
            frames_in(old(fa)@, old(m)@.len() as int),
            old(self).wf(old(m)@.len() as int),
        ensures
            final(fa).wf(),
            final(m)@.len() == old(m)@.len(),
            final(self).wf(final(m)@.len() as int),
            frames_in(final(fa)@, final(m)@.len() as int),
            stepped(
                *old(self),
                *final(self),
                old(m)@,
                final(m)@,
                old(fa)@,
                final(fa)@,
                reading,
                ops_of(r),
            ),
    {
        let notify: Vec<Op> = vec![Op::Notify];
        assert(notify@ =~= seq![Op::Notify]);
        let none: Vec<Op> = Vec::new();
        assert(none@ =~= Seq::<Op>::empty());
        match self.stage {
            Stage::Start => match self.bus {
                Bus::Mmio => {
                    self.stage = Stage::Features;
                    Ok(negotiate(Bus::Mmio))
                },
                Bus::Pci => {
                    self.stage = Stage::Reset(0);
                    let ops: Vec<Op> = vec![
                        Op::Write8(CFG_DEVICE_STATUS, 0),
                        Op::Read8(CFG_DEVICE_STATUS),
                    ];
                    assert(ops@ =~= seq![
                        Op::Write8(CFG_DEVICE_STATUS, 0),
                        Op::Read8(CFG_DEVICE_STATUS),
                    ]);
                    Ok(ops)
                },
            },
            Stage::Reset(n) => if reading == 0 {
                self.stage = Stage::Features;
                Ok(negotiate(Bus::Pci))
            } else if n >= RESET_SPINS {
                Err(Failure::ResetStuck)
            } else {
                self.stage = Stage::Reset(n + 1);
                let ops: Vec<Op> = vec![Op::Read8(CFG_DEVICE_STATUS)];
                assert(ops@ =~= seq![Op::Read8(CFG_DEVICE_STATUS)]);
                Ok(ops)
            },
            Stage::Features => {
                if reading & STATUS_FEATURES_OK == 0 {
                    return Err(Failure::FeaturesRejected);
                }
                self.stage = Stage::Queue;
                match self.bus {
                    Bus::Mmio => {
                        let ops: Vec<Op> = vec![
                            Op::Write32(QUEUE_SEL, 0),
                            Op::Read32(QUEUE_NUM_MAX),
                        ];
                        assert(ops@ =~= seq![Op::Write32(QUEUE_SEL, 0), Op::Read32(QUEUE_NUM_MAX)]);
                        Ok(ops)
                    },
                    Bus::Pci => {
                        let ops: Vec<Op> = vec![
                            Op::Write16(CFG_QUEUE_SELECT, 0),
                            Op::Write16(CFG_QUEUE_SIZE, QUEUE_SIZE),
                        ];
                        assert(ops@ =~= seq![
                            Op::Write16(CFG_QUEUE_SELECT, 0),
                            Op::Write16(CFG_QUEUE_SIZE, QUEUE_SIZE),
                        ]);
                        Ok(ops)
                    },
                }
            },
            Stage::Queue => {
                if self.bus == Bus::Mmio && reading < QUEUE_SIZE as u32 {
                    return Err(Failure::QueueTooSmall(reading));
                }
                self.open_queue(m, fa)
            },
            Stage::Info => {
                proof {
                    m.lemma_size();
                }
                let resp: u64 = self.queue_page + RESP_OFFSET;
                let known: bool = self.answer(m, 0) == RESP_OK_DISPLAY_INFO;
                let (w, h): (u32, u32) = (m.read_u32(resp + 32), m.read_u32(resp + 36));
                let (w, h): (u32, u32) = match self.bus {
                    Bus::Mmio => if !known || w == 0 || h == 0 {
                        (800, 600)
                    } else {
                        (w, h)
                    },
                    Bus::Pci => if !known {
                        (1280, 800)
                    } else {
                        (w, h)
                    },
                };
                self.width = w;
                self.height = h;
                let cmd: Vec<u8> = create_command(1, w, h);
                self.send(m, &cmd, 24, Stage::Create);
                Ok(notify)
            },
            Stage::Ready => Ok(none),
            _ => {
                let answer: u32 = self.answer(m, 0);
                if answer != RESP_OK_NODATA {
                    return Err(Failure::BadResponse(answer));
                }
                let (w, h): (u32, u32) = (self.width, self.height);
                match self.stage {
                    Stage::Create => self.attach(m, fa),
                    Stage::Attach => {
                        let cmd: Vec<u8> = scanout_command(0, 1, w, h);
                        self.send(m, &cmd, 24, Stage::Scanout);
                        Ok(notify)
                    },
                    Stage::Scanout => {
                        let cmd: Vec<u8> = transfer_command(w, 1, 0, 0, w, h);
                        self.send(m, &cmd, 24, Stage::Transfer);
                        Ok(notify)
                    },
                    Stage::Transfer => {
                        let cmd: Vec<u8> = flush_command(1, 0, 0, w, h);
                        self.send(m, &cmd, 24, Stage::Flush);
                        Ok(notify)
                    },
                    _ => {
                        self.stage = Stage::Ready;
                        Ok(none)
                    },
                }
            },
        }
    }

    /// The memory of the rows that `h` rows from the pixel at `(x, y)` lie in:
    /// where it begins and how long it is.
    pub open spec fn rows(&self, x: u32, y: u32, h: u32) -> (int, int) {
        let stride = self.width * 4;
        (self.backing_phys + y * stride + x * 4, h * stride)
    }

    /// Makes the transfer and the flush of a rectangle available to the device,
    /// which is then notified once. Returns the range of memory that must have
    /// left the cache before.
    pub fn present_rect(&mut self, m: &mut PhysMem, x: u32, y: u32, w: u32, h: u32) -> (r: (u64, u64))
        requires
            old(self).wf(old(m)@.len() as int),
            pixel_offset(old(self).width, x, y) <= u64::MAX,
            old(self).rows(x, y, h).0 <= u64::MAX,
            old(self).rows(x, y, h).1 <= u64::MAX,
        ensures
            presented(*old(self), *final(self), old(m)@, final(m)@, x, y, w, h, r),
            final(m)@.len() == old(m)@.len(),
    {
        let stride: u64 = self.width as u64 * 4;
        proof {
            assert(0 <= y * stride && 0 <= h * stride) by (nonlinear_arith)
                requires
                    y >= 0,
                    h >= 0,
                    stride >= 0,
            ;
        }
        let start: u64 = self.backing_phys + y as u64 * stride + x as u64 * 4;
        let len: u64 = h as u64 * stride;
        let cmd: Vec<u8> = transfer_command(self.width, 1, x, y, w, h);
        self.post(m, &cmd, 128, 0, 24);
        let cmd: Vec<u8> = flush_command(1, x, y, w, h);
        self.post(m, &cmd, 128, 1, 24);
        (start, len)
    }

    /// Presents the entire screen.
    pub fn present_full(&mut self, m: &mut PhysMem) -> (r: (u64, u64))
        requires
            old(self).wf(old(m)@.len() as int),
            old(self).rows(0, 0, old(self).height).1 <= u64::MAX,
        ensures
            presented(
                *old(self),
                *final(self),
                old(m)@,
                final(m)@,
                0,
                0,
                old(self).width,
                old(self).height,
                r,
            ),
            final(m)@.len() == old(m)@.len(),
    {
        let (w, h): (u32, u32) = (self.width, self.height);
        self.present_rect(m, 0, 0, w, h)
    }

    /// Whether the device carried out both commands of a presentation.
    pub fn check_responses(&self, m: &PhysMem) -> (r: Result<(), Failure>)
        requires
            self.wf(m@.len() as int),
        ensures
            ({
                let first = mem::word32(m@, self.queue_page + RESP_OFFSET);
                let second = mem::word32(m@, self.queue_page + RESP_OFFSET + 64);
                r == if first != RESP_OK_NODATA {
                    Err::<(), Failure>(Failure::BadResponse(first))
                } else if second != RESP_OK_NODATA {
                    Err::<(), Failure>(Failure::BadResponse(second))
                } else {
                    Ok::<(), Failure>(())
                }
            }),
    {
        let first: u32 = self.answer(m, 0);
        if first != RESP_OK_NODATA {
            return Err(Failure::BadResponse(first));
        }
        let second: u32 = self.answer(m, 1);
        if second != RESP_OK_NODATA {
            return Err(Failure::BadResponse(second));
        }
        Ok(())
    }
}

/// Where the device on PCI is notified.
pub fn notify_addr(base: u64, queue_notify_off: u16, multiplier: u32) -> (r: Option<u64>)
    ensures
        r == if queue_notify_off * multiplier <= u32::MAX && base + queue_notify_off * multiplier
            <= u64::MAX {
            Some((base + queue_notify_off * multiplier) as u64)
        } else {
            None
        },
{
    proof {
        assert(0 <= queue_notify_off * multiplier <= 0xFFFF * 0xFFFF_FFFF) by (nonlinear_arith)
            requires
                0 <= queue_notify_off <= 0xFFFF,
                0 <= multiplier <= 0xFFFF_FFFF,
        ;
    }
    let off: u64 = queue_notify_off as u64 * multiplier as u64;
    if off > 0xFFFF_FFFF {
        return None;
    }
    base.checked_add(off)
}

/// The bytes of memory from `at` on.
pub open spec fn part(m: Seq<u8>, at: int, len: int) -> Seq<u8> {
    m.subrange(at, at + len)
}

/// The queue page does not interfere with itself: after a presentation, both
/// commands, their four descriptors and their two entries of the ring are in
/// memory as they were posted.
pub proof fn law_both_commands_intact(
    m: Seq<u8>,
    g: VirtioGpu,
    x: u32,
    y: u32,
    w: u32,
    h: u32,
)
    requires
        g.wf(m.len() as int),
    ensures
        ({
            let page = g.queue_page as int;
            let t = transfer(g.width, 1, x, y, w, h);
            let f = flush(1, x, y, w, h);
            let avail1 = g.avail_idx.wrapping_add(1);
            let n = posted(
                posted(m, g.queue_page, g.avail_idx, t, 128, 0, 24),
                g.queue_page,
                avail1,
                f,
                128,
                1,
                24,
            );
            &&& part(n, page + CMD_OFFSET, 56) == t
            &&& part(n, page + CMD_OFFSET + 128, 48) == f
            &&& part(n, page, 16) == descriptor(
                (page + CMD_OFFSET) as u64,
                56,
                VRING_DESC_F_NEXT,
                1,
            )
            &&& part(n, page + 16, 16) == descriptor(
                (page + RESP_OFFSET) as u64,
                24,
                VRING_DESC_F_WRITE,
                0,
            )
            &&& part(n, page + 32, 16) == descriptor(
                (page + CMD_OFFSET + 128) as u64,
                48,
                VRING_DESC_F_NEXT,
                3,
            )
            &&& part(n, page + 48, 16) == descriptor(
                (page + RESP_OFFSET + 64) as u64,
                24,
                VRING_DESC_F_WRITE,
                0,
            )
            &&& part(n, page + AVAIL_OFFSET + 4 + 2 * (g.avail_idx % QUEUE_SIZE), 2) == le2(0)
            &&& part(n, page + AVAIL_OFFSET + 4 + 2 * (avail1 % QUEUE_SIZE), 2) == le2(2)
            &&& part(n, page + AVAIL_OFFSET + 2, 2) == le2(avail1.wrapping_add(1))
            &&& forall|i: int|
                0 <= i < m.len() && !(page <= i < page + 4096) ==> #[trigger] n[i] == m[i]
        }),
{
    let page = g.queue_page as int;
    let t = transfer(g.width, 1, x, y, w, h);
    let f = flush(1, x, y, w, h);
    let avail1 = g.avail_idx.wrapping_add(1);
    lemma_header_len(CMD_TRANSFER_TO_HOST_2D);
    lemma_header_len(CMD_RESOURCE_FLUSH);
    lemma_rect_len(x, y, w, h);
    lemma_lens(1, pixel_offset(g.width, x, y) as u64, 0);
    lemma_lens(0, 0, 2);
    lemma_lens(0, 0, avail1);
    lemma_lens(0, 0, avail1.wrapping_add(1));
    lemma_descriptor_len((page + CMD_OFFSET) as u64, 56, VRING_DESC_F_NEXT, 1);
    lemma_descriptor_len((page + RESP_OFFSET) as u64, 24, VRING_DESC_F_WRITE, 0);
    lemma_descriptor_len((page + CMD_OFFSET + 128) as u64, 48, VRING_DESC_F_NEXT, 3);
    lemma_descriptor_len((page + RESP_OFFSET + 64) as u64, 24, VRING_DESC_F_WRITE, 0);
    let n1 = posted(m, g.queue_page, g.avail_idx, t, 128, 0, 24);
    let n = posted(n1, g.queue_page, avail1, f, 128, 1, 24);
    assert(filled(t, 128).len() == 128 && filled(f, 128).len() == 128);
    assert(part(n, page + CMD_OFFSET, 56) =~= t);
    assert(part(n, page + CMD_OFFSET + 128, 48) =~= f);
    assert(part(n, page, 16) =~= descriptor((page + CMD_OFFSET) as u64, 56, VRING_DESC_F_NEXT, 1));
    assert(part(n, page + 16, 16) =~= descriptor(
        (page + RESP_OFFSET) as u64,
        24,
        VRING_DESC_F_WRITE,
        0,
    ));
    assert(part(n, page + 32, 16) =~= descriptor(
        (page + CMD_OFFSET + 128) as u64,
        48,
        VRING_DESC_F_NEXT,
        3,
    ));
    assert(part(n, page + 48, 16) =~= descriptor(
        (page + RESP_OFFSET + 64) as u64,
        24,
        VRING_DESC_F_WRITE,
        0,
    ));
    assert(g.avail_idx % QUEUE_SIZE != avail1 % QUEUE_SIZE);
    assert(part(n, page + AVAIL_OFFSET + 4 + 2 * (g.avail_idx % QUEUE_SIZE), 2) =~= le2(0));
    assert(part(n, page + AVAIL_OFFSET + 4 + 2 * (avail1 % QUEUE_SIZE), 2) =~= le2(2));
    assert(part(n, page + AVAIL_OFFSET + 2, 2) =~= le2(avail1.wrapping_add(1)));
}

proof fn lemma_descriptor_len(addr: u64, len: u32, flags: u16, next: u16)
    ensures
        descriptor(addr, len, flags, next).len() == 16,
{
    lemma_lens(len, addr, flags);
    lemma_lens(len, addr, next);
}

/// What presenting a rectangle changes and returns: its transfer and its flush
/// are available to the device, and these rows must have left the cache.
pub open spec fn presented(
    g0: VirtioGpu,
    g1: VirtioGpu,
    m0: Seq<u8>,
    m1: Seq<u8>,
    x: u32,
    y: u32,
    w: u32,
    h: u32,
    r: (u64, u64),
) -> bool {
    &&& (r.0 as int, r.1 as int) == g0.rows(x, y, h)
    &&& g1 == (VirtioGpu { avail_idx: g0.avail_idx.wrapping_add(1).wrapping_add(1), ..g0 })
    &&& m1 == posted(
        posted(
            m0,
            g0.queue_page,
            g0.avail_idx,
            transfer(g0.width, 1, x, y, w, h),
            128,
            0,
            24,
        ),
        g0.queue_page,
        g0.avail_idx.wrapping_add(1),
        flush(1, x, y, w, h),
        128,
        1,
        24,
    )
}

/// Presenting everything (`full`) is presenting the rectangle of the whole
/// screen (`rect`): the device sees the same two commands, and the driver ends
/// the same.
pub proof fn law_full_present_is_the_whole_rectangle(
    g: VirtioGpu,
    m: Seq<u8>,
    full: (VirtioGpu, Seq<u8>, (u64, u64)),
    rect: (VirtioGpu, Seq<u8>, (u64, u64)),
)
    requires
        presented(g, full.0, m, full.1, 0, 0, g.width, g.height, full.2),
        presented(g, rect.0, m, rect.1, 0, 0, g.width, g.height, rect.2),
    ensures
        full == rect,
{
}

proof fn lemma_part(s: Seq<u8>, at: int, v: int, n: nat)
    requires
        0 <= v < bytes::pow256(n),
        0 <= at,
        at + n <= s.len(),
        s.subrange(at, at + n) == bytes::le_bytes(v, n),
    ensures
        bytes::le(s, at, n) == v,
{
    let t = bytes::le_bytes(v, n);
    bytes::lemma_le_bytes_len(v, n);
    bytes::lemma_le_round_trip(v, n);
    assert forall|i: int| 0 <= i < n implies s[#[trigger] (at + i)] == t[0 + i] by {
        assert(s.subrange(at, at + n)[i] == s[at + i]);
    }
    bytes::lemma_le_same(s, at, t, 0, n);
}

proof fn lemma_sizes(v4: u32, v8: u64)
    ensures
        le4(v4).len() == 4,
        le8(v8).len() == 8,
        header(v4).len() == 24,
        header(v4).subrange(0, 4) == le4(v4),
{
    bytes::lemma_le_bytes_len(v4 as int, 4);
    bytes::lemma_le_bytes_len(v8 as int, 8);
    bytes::lemma_le_bytes_len(0, 4);
    bytes::lemma_le_bytes_len(0, 8);
    assert(header(v4).subrange(0, 4) =~= le4(v4));
}

/// A transfer names the rectangle, where its first pixel is in the backing memory, and
/// the resource.
pub proof fn law_transfer_layout(width: u32, id: u32, x: u32, y: u32, w: u32, h: u32)
    requires
        (y * width + x) * 4 <= u64::MAX,
    ensures
        ({
            let c = transfer(width, id, x, y, w, h);
            &&& c.len() == 56
            &&& bytes::u32_at(c, 0) == 0x105
            &&& bytes::u32_at(c, 24) == x
            &&& bytes::u32_at(c, 28) == y
            &&& bytes::u32_at(c, 32) == w
            &&& bytes::u32_at(c, 36) == h
            &&& bytes::u64_at(c, 40) == (y * width + x) * 4
            &&& bytes::u32_at(c, 48) == id
        }),
{
    let c = transfer(width, id, x, y, w, h);
    assert(0 <= (y * width + x) * 4) by (nonlinear_arith)
        requires
            y >= 0,
            width >= 0,
            x >= 0,
    ;
    let at = pixel_offset(width, x, y) as u64;
    lemma_sizes(0x105, at);
    lemma_sizes(x, 0);
    lemma_sizes(y, 0);
    lemma_sizes(w, 0);
    lemma_sizes(h, 0);
    lemma_sizes(id, 0);
    lemma_sizes(0, 0);
    bytes::lemma_pow256();
    assert(c.subrange(0, 4) =~= header(0x105).subrange(0, 4));
    assert(c.subrange(24, 28) =~= le4(x));
    assert(c.subrange(28, 32) =~= le4(y));
    assert(c.subrange(32, 36) =~= le4(w));
    assert(c.subrange(36, 40) =~= le4(h));
    assert(c.subrange(40, 48) =~= le8(at));
    assert(c.subrange(48, 52) =~= le4(id));
    lemma_part(c, 0, 0x105, 4);
    lemma_part(c, 24, x as int, 4);
    lemma_part(c, 28, y as int, 4);
    lemma_part(c, 32, w as int, 4);
    lemma_part(c, 36, h as int, 4);
    lemma_part(c, 40, at as int, 8);
    lemma_part(c, 48, id as int, 4);
    bytes::lemma_raw(c, 0);
    bytes::lemma_raw(c, 24);
    bytes::lemma_raw(c, 28);
    bytes::lemma_raw(c, 32);
    bytes::lemma_raw(c, 36);
    bytes::lemma_raw(c, 40);
    bytes::lemma_raw(c, 48);
}

/// A flush names the rectangle and the resource.
pub proof fn law_flush_layout(id: u32, x: u32, y: u32, w: u32, h: u32)
    ensures
        ({
            let c = flush(id, x, y, w, h);
            &&& c.len() == 48
            &&& bytes::u32_at(c, 0) == 0x104
            &&& bytes::u32_at(c, 24) == x
            &&& bytes::u32_at(c, 28) == y
            &&& bytes::u32_at(c, 32) == w
            &&& bytes::u32_at(c, 36) == h
            &&& bytes::u32_at(c, 40) == id
        }),
{
    let c = flush(id, x, y, w, h);
    lemma_sizes(0x104, 0);
    lemma_sizes(x, 0);
    lemma_sizes(y, 0);
    lemma_sizes(w, 0);
    lemma_sizes(h, 0);
    lemma_sizes(id, 0);
    lemma_sizes(0, 0);
    bytes::lemma_pow256();
    assert(c.subrange(0, 4) =~= header(0x104).subrange(0, 4));
    assert(c.subrange(24, 28) =~= le4(x));
    assert(c.subrange(28, 32) =~= le4(y));
    assert(c.subrange(32, 36) =~= le4(w));
    assert(c.subrange(36, 40) =~= le4(h));
    assert(c.subrange(40, 44) =~= le4(id));
    lemma_part(c, 0, 0x104, 4);
    lemma_part(c, 24, x as int, 4);
    lemma_part(c, 28, y as int, 4);
    lemma_part(c, 32, w as int, 4);
    lemma_part(c, 36, h as int, 4);
    lemma_part(c, 40, id as int, 4);
    bytes::lemma_raw(c, 0);
    bytes::lemma_raw(c, 24);
    bytes::lemma_raw(c, 28);
    bytes::lemma_raw(c, 32);
    bytes::lemma_raw(c, 36);
    bytes::lemma_raw(c, 40);
}

/// The resource is made for the whole display, in the one format, and shown all of it.
pub proof fn law_setup_layout(id: u32, w: u32, h: u32, scan: u32)
    ensures
        ({
            let c = create_2d(id, w, h);
            let s = scanout(scan, id, w, h);
            &&& c.len() == 40
            &&& bytes::u32_at(c, 0) == 0x101
            &&& bytes::u32_at(c, 24) == id
            &&& bytes::u32_at(c, 28) == 1
            &&& bytes::u32_at(c, 32) == w
            &&& bytes::u32_at(c, 36) == h
            &&& s.len() == 48
            &&& bytes::u32_at(s, 0) == 0x103
            &&& bytes::u32_at(s, 32) == w
            &&& bytes::u32_at(s, 36) == h
            &&& bytes::u32_at(s, 40) == scan
            &&& bytes::u32_at(s, 44) == id
        }),
{
    let c = create_2d(id, w, h);
    let s = scanout(scan, id, w, h);
    lemma_sizes(0x101, 0);
    lemma_sizes(0x103, 0);
    lemma_sizes(w, 0);
    lemma_sizes(h, 0);
    lemma_sizes(id, 0);
    lemma_sizes(scan, 0);
    lemma_sizes(1, 0);
    lemma_sizes(0, 0);
    bytes::lemma_pow256();
    assert(c.subrange(0, 4) =~= header(0x101).subrange(0, 4));
    assert(c.subrange(24, 28) =~= le4(id));
    assert(c.subrange(28, 32) =~= le4(1));
    assert(c.subrange(32, 36) =~= le4(w));
    assert(c.subrange(36, 40) =~= le4(h));
    assert(s.subrange(0, 4) =~= header(0x103).subrange(0, 4));
    assert(s.subrange(32, 36) =~= le4(w));
    assert(s.subrange(36, 40) =~= le4(h));
    assert(s.subrange(40, 44) =~= le4(scan));
    assert(s.subrange(44, 48) =~= le4(id));
    lemma_part(c, 0, 0x101, 4);
    lemma_part(c, 24, id as int, 4);
    lemma_part(c, 28, 1, 4);
    lemma_part(c, 32, w as int, 4);
    lemma_part(c, 36, h as int, 4);
    lemma_part(s, 0, 0x103, 4);
    lemma_part(s, 32, w as int, 4);
    lemma_part(s, 36, h as int, 4);
    lemma_part(s, 40, scan as int, 4);
    lemma_part(s, 44, id as int, 4);
    bytes::lemma_raw(c, 0);
    bytes::lemma_raw(c, 24);
    bytes::lemma_raw(c, 28);
    bytes::lemma_raw(c, 32);
    bytes::lemma_raw(c, 36);
    bytes::lemma_raw(s, 0);
    bytes::lemma_raw(s, 32);
    bytes::lemma_raw(s, 36);
    bytes::lemma_raw(s, 40);
    bytes::lemma_raw(s, 44);
}

/// The backing memory of a resource is one stretch.
pub proof fn law_backing_layout(id: u32, addr: u64, len: u64)
    requires
        len <= u32::MAX,
    ensures
        ({
            let c = attach_backing(id, addr, len);
            &&& c.len() == 48
            &&& bytes::u32_at(c, 0) == 0x106
            &&& bytes::u32_at(c, 24) == id
            &&& bytes::u32_at(c, 28) == 1
            &&& bytes::u64_at(c, 32) == addr
            &&& bytes::u32_at(c, 40) == len
        }),
{
    let c = attach_backing(id, addr, len);
    lemma_sizes(0x106, addr);
    lemma_sizes(id, 0);
    lemma_sizes(1, 0);
    lemma_sizes(len as u32, 0);
    lemma_sizes(0, 0);
    bytes::lemma_pow256();
    assert(c.subrange(0, 4) =~= header(0x106).subrange(0, 4));
    assert(c.subrange(24, 28) =~= le4(id));
    assert(c.subrange(28, 32) =~= le4(1));
    assert(c.subrange(32, 40) =~= le8(addr));
    assert(c.subrange(40, 44) =~= le4(len as u32));
    lemma_part(c, 0, 0x106, 4);
    lemma_part(c, 24, id as int, 4);
    lemma_part(c, 28, 1, 4);
    lemma_part(c, 32, addr as int, 8);
    lemma_part(c, 40, len as int, 4);
    bytes::lemma_raw(c, 0);
    bytes::lemma_raw(c, 24);
    bytes::lemma_raw(c, 28);
    bytes::lemma_raw(c, 32);
    bytes::lemma_raw(c, 40);
}

/// The frames of the backing hold every pixel, and one fewer would not.
pub proof fn law_backing_pages(w: u32, h: u32)
    ensures
        backing_pages(w, h) * 4096 >= w * h * 4,
        w * h > 0 ==> (backing_pages(w, h) - 1) * 4096 < w * h * 4,
{
    let n = w * h * 4;
    assert((n + 4095) / 4096 * 4096 >= n);
}

/// What must leave the cache before a presentation holds every pixel of the rectangle.
pub proof fn law_rows_hold_the_rectangle(
    g: VirtioGpu,
    x: u32,
    y: u32,
    w: u32,
    h: u32,
    px: int,
    py: int,
)
    requires
        x <= px < x + w,
        y <= py < y + h,
        x + w <= g.width,
    ensures
        ({
            let r = g.rows(x, y, h);
            let at = g.backing_phys + (py * g.width + px) * 4;
            r.0 <= at && at + 4 <= r.0 + r.1
        }),
{
    let (gw, a, b) = (g.width as int, py - y, h as int);
    let stride = gw * 4;
    assert((py * gw + px) * 4 == y * stride + x * 4 + a * stride + (px - x) * 4) by (nonlinear_arith)
        requires
            a == py - y,
            stride == gw * 4,
    ;
    assert(0 <= a * stride && a * stride + stride <= b * stride) by (nonlinear_arith)
        requires
            0 <= a < b,
            stride >= 0,
    ;
    assert(g.width * 4 == stride);
}

/// The first place on the bus with a GPU is the one that is found.
pub proof fn law_first_gpu(slots: Seq<(u32, u32)>, from: int, i: int)
    requires
        0 <= from <= i < slots.len(),
        slots[i] == (0x7472_6976u32, 16u32),
        forall|j: int| from <= j < i ==> #[trigger] slots[j] != (0x7472_6976u32, 16u32),
    ensures
        gpu_slot(slots, from) == Some(i),
    decreases i - from,
{
    if from < i {
        assert(slots[from] != (0x7472_6976u32, 16u32));
        law_first_gpu(slots, from + 1, i);
    }
}

/// The size that the device tells is used, and where it tells none, a size of the
/// driver's own.
pub proof fn law_display_size(m: Seq<u8>, page: u64)
    ensures
        ({
            let told = mem::word32(m, page + 0x600) == 0x1101;
            let (w, h) = (mem::word32(m, page + 0x620), mem::word32(m, page + 0x624));
            &&& told && w > 0 && h > 0 ==> display_size(Bus::Mmio, m, page) == (w, h)
            &&& told ==> display_size(Bus::Pci, m, page) == (w, h)
            &&& !told || w == 0 || h == 0 ==> display_size(Bus::Mmio, m, page) == (800u32, 600u32)
            &&& !told ==> display_size(Bus::Pci, m, page) == (1280u32, 800u32)
        }),
{
}

/// The device is brought up in order, each step only after the one before was
/// answered: features, queue, display, resource, backing, scanout, and the first
/// picture. An answer that is not the right one ends it.
pub proof fn law_bring_up(
    g0: VirtioGpu,
    g1: VirtioGpu,
    m0: Seq<u8>,
    m1: Seq<u8>,
    free0: Set<int>,
    free1: Set<int>,
    reading: u32,
    r: Result<Seq<Op>, Failure>,
)
    requires
        stepped(g0, g1, m0, m1, free0, free1, reading, r),
    ensures
        g0.stage is Features && reading & 8 == 0 ==> r == Err::<Seq<Op>, Failure>(
            Failure::FeaturesRejected,
        ),
        g0.stage is Features && reading & 8 != 0 ==> g1.stage is Queue,
        g0.stage is Queue && g0.bus == Bus::Mmio && reading < 16 ==> r == Err::<Seq<Op>, Failure>(
            Failure::QueueTooSmall(reading),
        ),
        g0.stage is Queue && r is Ok ==> g1.stage is Info,
        g0.stage is Info ==> g1.stage is Create && (g1.width, g1.height) == display_size(
            g0.bus,
            m0,
            g0.queue_page,
        ),
        ({
            let waits = g0.stage is Create || g0.stage is Attach || g0.stage is Scanout
                || g0.stage is Transfer || g0.stage is Flush;
            let answer = mem::word32(m0, g0.queue_page + 0x600);
            &&& waits && answer != 0x1100 ==> r == Err::<Seq<Op>, Failure>(
                Failure::BadResponse(answer),
            ) && g1 == g0
            &&& g0.stage is Create && answer == 0x1100 && r is Ok ==> g1.stage is Attach
            &&& g0.stage is Attach && answer == 0x1100 ==> g1.stage is Scanout
            &&& g0.stage is Scanout && answer == 0x1100 ==> g1.stage is Transfer
            &&& g0.stage is Transfer && answer == 0x1100 ==> g1.stage is Flush
            &&& g0.stage is Flush && answer == 0x1100 ==> g1.stage is Ready
        }),
        r is Err ==> g1 == g0 && m1 == m0 && free1 == free0,
{
}

/// The device is told where the three parts of its queue are, low half first, and only
/// then that the queue may be used.
pub proof fn law_queue_setup(page: u64)
    requires
        page + 0x1000 <= u64::MAX,
    ensures
        ({
            let o = queue_setup(Bus::Mmio, page);
            &&& o.len() == 10
            &&& o[0] == Op::Write32(0x38, 16)
            &&& o[1] == Op::Write32(0x80, (page % 0x1_0000_0000) as u32)
            &&& o[2] == Op::Write32(0x84, (page / 0x1_0000_0000) as u32)
            &&& o[3] == Op::Write32(0x90, ((page + 0x100) % 0x1_0000_0000) as u32)
            &&& o[5] == Op::Write32(0xA0, ((page + 0x200) % 0x1_0000_0000) as u32)
            &&& o[7] == Op::Write32(0x44, 1)
            &&& o[8] is Write32 && o[9] is Notify
        }),
{
}

/// A descriptor tells an address, a length, its flags and the descriptor that follows.
pub proof fn law_descriptor_layout(addr: u64, len: u32, flags: u16, next: u16)
    ensures
        ({
            let d = descriptor(addr, len, flags, next);
            &&& d.len() == 16
            &&& bytes::u64_at(d, 0) == addr
            &&& bytes::u32_at(d, 8) == len
            &&& bytes::u16_at(d, 12) == flags
            &&& bytes::u16_at(d, 14) == next
        }),
{
    let d = descriptor(addr, len, flags, next);
    bytes::lemma_pow256();
    bytes::lemma_le_bytes_len(addr as int, 8);
    bytes::lemma_le_bytes_len(len as int, 4);
    bytes::lemma_le_bytes_len(flags as int, 2);
    bytes::lemma_le_bytes_len(next as int, 2);
    assert(d.subrange(0, 8) =~= le8(addr));
    assert(d.subrange(8, 12) =~= le4(len));
    assert(d.subrange(12, 14) =~= le2(flags));
    assert(d.subrange(14, 16) =~= le2(next));
    lemma_part(d, 0, addr as int, 8);
    lemma_part(d, 8, len as int, 4);
    lemma_part(d, 12, flags as int, 2);
    lemma_part(d, 14, next as int, 2);
    bytes::lemma_raw(d, 0);
    bytes::lemma_raw(d, 8);
    bytes::lemma_raw(d, 12);
    bytes::lemma_raw(d, 14);
}

} // verus!
