//! The PS/2 mouse: what brings it up, access by access.
use vstd::prelude::*;

verus! {

/// The controller's data port.
pub const DATA: u16 = 0x60;

/// The controller's status and command port.
pub const COMMAND: u16 = 0x64;

/// How often the status is read before the controller is taken to be ready.
pub const TRIES: u32 = 100_000;

/// One access to the controller.
#[derive(Clone, Copy, Debug, PartialEq, Eq, Structural)]
pub enum Access {
    /// Wait until a byte can be written, then write it.
    Write(u16, u8),
    /// Wait until there is a byte, then read it.
    Read,
}

/// Whether the controller takes a byte, by its status.
pub fn can_write(status: u8) -> (r: bool)
    ensures
        r == (status as int / 2 % 2 == 0),
{
    status / 2 % 2 == 0
}

/// Whether the controller has a byte, by its status.
pub fn can_read(status: u8) -> (r: bool)
    ensures
        r == (status % 2 == 1),
{
    status % 2 == 1
}

/// Switches the mouse's port on and asks for the configuration, which is the
/// byte read.
pub fn enable() -> (r: [Access; 3])
    ensures
        r@ == seq![Access::Write(COMMAND, 0xA8u8), Access::Write(COMMAND, 0x20u8), Access::Read],
{
    let r: [Access; 3] = [Access::Write(COMMAND, 0xA8), Access::Write(COMMAND, 0x20), Access::Read];
    assert(r@ =~= seq![
        Access::Write(COMMAND, 0xA8u8),
        Access::Write(COMMAND, 0x20u8),
        Access::Read,
    ]);
    r
}

/// A command to the mouse itself, and its acknowledgement.
pub open spec fn command(byte: u8) -> Seq<Access> {
    seq![Access::Write(COMMAND, 0xD4u8), Access::Write(DATA, byte), Access::Read]
}

fn mouse_cmd(out: &mut Vec<Access>, byte: u8)
    ensures
        final(out)@ == old(out)@ + command(byte),
{
    out.push(Access::Write(COMMAND, 0xD4));
    out.push(Access::Write(DATA, byte));
    out.push(Access::Read);
    assert(out@ =~= old(out)@ + command(byte));
}

/// With the configuration read: its interrupt is switched on, the mouse takes
/// its defaults and begins to report.
pub fn stream(config: u8) -> (r: Vec<Access>)
    ensures
        r@ == seq![Access::Write(COMMAND, 0x60u8), Access::Write(DATA, config | 0x02)] + command(
            0xF6,
        ) + command(0xF4),
{
    let mut r: Vec<Access> = Vec::new();
    r.push(Access::Write(COMMAND, 0x60));
    r.push(Access::Write(DATA, config | 0x02));
    assert(r@ =~= seq![Access::Write(COMMAND, 0x60u8), Access::Write(DATA, config | 0x02)]);
    mouse_cmd(&mut r, 0xF6);
    mouse_cmd(&mut r, 0xF4);
    r
}

} // verus!
