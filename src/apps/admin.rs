//! The administrative application: identity, version, mode switches.
use vstd::prelude::*;

use crate::apps::{concat_aid, Pix, Rid, Select};
use crate::error::Error;
use crate::firmware::{packed_version, Version};
use crate::transport::{called, last_reply, outcome, Exchange, Transport};
use crate::uuid::{be_value, Uuid};

verus! {

/// Reboot into the bootloader (needs a touch).
pub const BOOT_TO_BOOTROM_COMMAND: u8 = 0x51;
/// Reboot normally.
pub const REBOOT_COMMAND: u8 = 0x53;
/// Report the packed firmware version.
pub const VERSION_COMMAND: u8 = 0x61;
/// Report the 16-byte UUID.
pub const UUID_COMMAND: u8 = 0x62;
/// Blink.
pub const WINK_COMMAND: u8 = 0x08;
/// Report whether the device is locked.
pub const LOCKED_COMMAND: u8 = 0x63;

/// The administrative application's identifier.
pub open spec fn admin_aid() -> Seq<u8> {
    seq![0xA0u8, 0x00u8, 0x00u8, 0x08u8, 0x47u8, 0x00u8, 0x00u8, 0x00u8, 0x01u8]
}

/// The UUID that a get-UUID reply carries: exactly 16 bytes, big endian.
pub open spec fn uuid_of_reply(reply: Seq<u8>) -> Result<Uuid, Error> {
    if reply.len() == 16 {
        Ok(Uuid(be_value(reply) as u128))
    } else {
        Err(Error::InvalidInput)
    }
}

/// The version that a get-version reply carries: exactly 4 bytes, packed.
pub open spec fn version_of_reply(reply: Seq<u8>) -> Result<Version, Error> {
    if reply.len() == 4 {
        Ok(packed_version(reply))
    } else {
        Err(Error::InvalidInput)
    }
}

/// The lock state that a locked reply carries: its first byte is 1 when locked.
pub open spec fn locked_of_reply(reply: Seq<u8>) -> Result<bool, Error> {
    if reply.len() > 0 {
        Ok(reply[0] == 1)
    } else {
        Err(Error::InvalidInput)
    }
}

/// The UUID in a reply to the get-UUID command: exactly 16 bytes, big endian.
pub fn uuid_from_reply(reply: &[u8]) -> (r: Result<Uuid, Error>)
    ensures
        r == uuid_of_reply(reply@),
{
    Uuid::from_bytes(reply)
}

/// The version in a reply to the get-version command: exactly 4 bytes, packed.
pub fn version_from_reply(reply: &[u8]) -> (r: Result<Version, Error>)
    ensures
        r == version_of_reply(reply@),
{
    if reply.len() != 4 {
        return Err(Error::InvalidInput);
    }
    let bytes: [u8; 4] = [reply[0], reply[1], reply[2], reply[3]];
    assert(bytes@ =~= reply@);
    Ok(Version::from_packed(bytes))
}

/// The lock state in a reply to the locked command: its first byte is 1 when locked.
pub fn locked_from_reply(reply: &[u8]) -> (r: Result<bool, Error>)
    ensures
        r == locked_of_reply(reply@),
{
    if reply.len() == 0 {
        Err(Error::InvalidInput)
    } else {
        Ok(reply[0] == 1)
    }
}

/// The administrative application over a transport.
pub struct App<T> {
    transport: T,
}

impl<T> Select for App<T> {
    open spec fn aid_spec() -> Seq<u8> {
        admin_aid()
    }

    fn application_id() -> (r: Vec<u8>) {
        let r = concat_aid(&Rid::SOLOKEYS, &Pix::ADMIN);
        assert(r@ =~= admin_aid());
        r
    }
}

impl<T: Transport> App<T> {
    /// The application over a transport on which it is already selected.
    pub fn new(transport: T) -> (r: App<T>)
        ensures
            r.transport_spec() == transport,
    {
        App { transport }
    }

    /// The transport the application runs on.
    pub closed spec fn transport_spec(&self) -> T {
        self.transport
    }

    /// Selects the application on the transport: a SELECT of its identifier.
    /// On success the application runs on that transport.
    pub fn select(transport: T) -> (r: Result<App<T>, Error>)
        ensures
            r matches Ok(app) ==> app.transport_spec().log() == transport.log().push(
                Exchange::Select(admin_aid(), Ok(())),
            ),
    {
        let ghost before = transport.log();
        let mut transport = transport;
        let aid = <App<T> as Select>::application_id();
        let ghost sent = aid@;
        assert(sent == admin_aid());
        let selected = transport.select(aid);
        assert(transport.log() == before.push(Exchange::Select(sent, selected)));
        match selected {
            Ok(u) => {
                assert(selected == Ok::<(), Error>(()));
                let app = App { transport };
                assert(app.transport_spec() == transport);
                Ok(app)
            },
            Err(e) => Err(e),
        }
    }

    /// Gives the transport back.
    pub fn into_inner(self) -> (r: T)
        ensures
            r == self.transport_spec(),
    {
        self.transport
    }

    /// Sends an instruction without data; its outcome is returned, the reply dropped.
    fn instruct_only(&mut self, instruction: u8) -> (r: Result<(), Error>)
        ensures
            called(old(self).transport_spec().log(), final(self).transport_spec().log(), instruction, Seq::empty()),
            r == outcome(last_reply(final(self).transport_spec().log())),
    {
        let ghost before = self.transport.log();
        let reply = self.transport.instruct(instruction);
        assert(self.transport.log().drop_last() =~= before);
        match reply {
            Ok(_) => Ok(()),
            Err(e) => Err(e),
        }
    }

    /// Reboots into maintenance (bootloader) mode: instruction 0x51 without
    /// data, whose outcome is returned. The device waits for a touch with no
    /// timeout; the connection may drop as it reboots, which callers treat as
    /// success.
    pub fn maintenance(&mut self) -> (r: Result<(), Error>)
        ensures
            called(old(self).transport_spec().log(), final(self).transport_spec().log(), BOOT_TO_BOOTROM_COMMAND, Seq::empty()),
            r == outcome(last_reply(final(self).transport_spec().log())),
    {
        self.instruct_only(BOOT_TO_BOOTROM_COMMAND)
    }

    /// Reboots normally: instruction 0x53 without data, whose outcome is
    /// returned; the connection may drop as it reboots.
    pub fn reboot(&mut self) -> (r: Result<(), Error>)
        ensures
            called(old(self).transport_spec().log(), final(self).transport_spec().log(), REBOOT_COMMAND, Seq::empty()),
            r == outcome(last_reply(final(self).transport_spec().log())),
    {
        self.instruct_only(REBOOT_COMMAND)
    }

    /// The device's UUID: instruction 0x62 without data; a reply of any
    /// length but 16 is refused, a transport error returned unchanged.
    pub fn uuid(&mut self) -> (r: Result<Uuid, Error>)
        ensures
            called(old(self).transport_spec().log(), final(self).transport_spec().log(), UUID_COMMAND, Seq::empty()),
            r == match last_reply(final(self).transport_spec().log()) {
                Ok(b) => uuid_of_reply(b),
                Err(e) => Err(e),
            },
    {
        let ghost before = self.transport.log();
        let reply = self.transport.instruct(UUID_COMMAND);
        assert(self.transport.log().drop_last() =~= before);
        match reply {
            Ok(reply) => uuid_from_reply(reply.as_slice()),
            Err(e) => Err(e),
        }
    }

    /// The version of the running firmware: instruction 0x61 without data; a
    /// reply of any length but 4 is refused, a transport error returned unchanged.
    pub fn version(&mut self) -> (r: Result<Version, Error>)
        ensures
            called(old(self).transport_spec().log(), final(self).transport_spec().log(), VERSION_COMMAND, Seq::empty()),
            r == match last_reply(final(self).transport_spec().log()) {
                Ok(b) => version_of_reply(b),
                Err(e) => Err(e),
            },
    {
        let ghost before = self.transport.log();
        let reply = self.transport.instruct(VERSION_COMMAND);
        assert(self.transport.log().drop_last() =~= before);
        match reply {
            Ok(reply) => version_from_reply(reply.as_slice()),
            Err(e) => Err(e),
        }
    }

    /// Asks the device to blink: instruction 0x08 without data, whose outcome is returned.
    pub fn wink(&mut self) -> (r: Result<(), Error>)
        ensures
            called(old(self).transport_spec().log(), final(self).transport_spec().log(), WINK_COMMAND, Seq::empty()),
            r == outcome(last_reply(final(self).transport_spec().log())),
    {
        self.instruct_only(WINK_COMMAND)
    }

    /// Whether the device is locked: instruction 0x63 without data; an empty
    /// reply is refused, a transport error returned unchanged.
    pub fn locked(&mut self) -> (r: Result<bool, Error>)
        ensures
            called(old(self).transport_spec().log(), final(self).transport_spec().log(), LOCKED_COMMAND, Seq::empty()),
            r == match last_reply(final(self).transport_spec().log()) {
                Ok(b) => locked_of_reply(b),
                Err(e) => Err(e),
            },
    {
        let ghost before = self.transport.log();
        let reply = self.transport.instruct(LOCKED_COMMAND);
        assert(self.transport.log().drop_last() =~= before);
        match reply {
            Ok(reply) => locked_from_reply(reply.as_slice()),
            Err(e) => Err(e),
        }
    }
}

} // verus!
