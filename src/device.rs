//! Logical devices: one physical key reached over CTAPHID, a smartcard
//! channel, or both, identified by its UUID; and their discovery.
use vstd::prelude::*;

use crate::apps::admin::{
    admin_aid, uuid_from_reply, uuid_of_reply, version_from_reply, version_of_reply, UUID_COMMAND,
    VERSION_COMMAND,
};
use crate::apps::{concat_aid, Pix, Rid};
use crate::error::Error;
use crate::firmware::Version;
use crate::transport::{last_reply, reply_view, Exchange, ExchangeLog, Transport};
use crate::uuid::Uuid;

verus! {

/// Which channel a logical device uses first when both are present.
#[derive(Clone, Copy, Debug, PartialEq, Eq, Structural)]
pub enum TransportPreference {
    Ctap,
    Pcsc,
}

/// The handle a call goes to: the preferred one if present, else the other.
pub open spec fn route(pref: TransportPreference, has_ctap: bool, has_pcsc: bool) -> Option<
    TransportPreference,
> {
    match pref {
        TransportPreference::Ctap => if has_ctap {
            Some(TransportPreference::Ctap)
        } else if has_pcsc {
            Some(TransportPreference::Pcsc)
        } else {
            None
        },
        TransportPreference::Pcsc => if has_pcsc {
            Some(TransportPreference::Pcsc)
        } else if has_ctap {
            Some(TransportPreference::Ctap)
        } else {
            None
        },
    }
}

/// Picks the handle for a call.
pub fn choose_handle(pref: TransportPreference, has_ctap: bool, has_pcsc: bool) -> (r: Option<
    TransportPreference,
>)
    ensures
        r == route(pref, has_ctap, has_pcsc),
{
    match pref {
        TransportPreference::Ctap => if has_ctap {
            Some(TransportPreference::Ctap)
        } else if has_pcsc {
            Some(TransportPreference::Pcsc)
        } else {
            None
        },
        TransportPreference::Pcsc => if has_pcsc {
            Some(TransportPreference::Pcsc)
        } else if has_ctap {
            Some(TransportPreference::Ctap)
        } else {
            None
        },
    }
}

/// Something that carries a device identity.
pub trait Identified {
    spec fn uuid_spec(&self) -> Uuid;

    /// The device's UUID.
    fn uuid(&self) -> (r: Uuid)
        ensures
            r == self.uuid_spec(),
    ;
}

/// A Solo 2 in regular mode, reached over CTAPHID (`C`), a smartcard (`P`) or both.
/// At least one handle is always present.
pub struct Solo2<C, P> {
    ctap: Option<C>,
    pcsc: Option<P>,
    uuid: Uuid,
    version: Version,
    preference: TransportPreference,
    exchanges: Ghost<Seq<Exchange>>,
}

impl<C, P> Solo2<C, P> {
    pub closed spec fn has_ctap(&self) -> bool {
        self.ctap is Some
    }

    pub closed spec fn has_pcsc(&self) -> bool {
        self.pcsc is Some
    }

    pub closed spec fn version_spec(&self) -> Version {
        self.version
    }

    /// The CTAPHID handle.
    pub closed spec fn ctap_handle(&self) -> Option<C> {
        self.ctap
    }

    /// The smartcard handle.
    pub closed spec fn pcsc_handle(&self) -> Option<P> {
        self.pcsc
    }

    pub closed spec fn preference_spec(&self) -> TransportPreference {
        self.preference
    }

    /// The same device with another version.
    pub closed spec fn with_version(self, version: Version) -> Solo2<C, P> {
        Solo2 { version, ..self }
    }

    /// The invariant: at least one handle.
    pub open spec fn wf(&self) -> bool {
        self.has_ctap() || self.has_pcsc()
    }

    /// A logical device from its handles; `None` when neither is given.
    /// Calls prefer the smartcard channel until told otherwise.
    pub fn new(ctap: Option<C>, pcsc: Option<P>, uuid: Uuid, version: Version) -> (r: Option<
        Solo2<C, P>,
    >)
        ensures
            (ctap is Some || pcsc is Some) <==> r is Some,
            r matches Some(d) ==> d.wf() && d.has_ctap() == ctap is Some && d.has_pcsc()
                == pcsc is Some && d.uuid_spec() == uuid && d.version_spec() == version
                && d.preference_spec() == TransportPreference::Pcsc && d.ctap_handle() == ctap
                && d.pcsc_handle() == pcsc,
    {
        if ctap.is_none() && pcsc.is_none() {
            None
        } else {
            Some(
                Solo2 {
                    ctap,
                    pcsc,
                    uuid,
                    version,
                    preference: TransportPreference::Pcsc,
                    exchanges: Ghost(Seq::empty()),
                },
            )
        }
    }

    /// The configured preference.
    pub fn transport_preference(&self) -> (r: TransportPreference)
        ensures
            r == self.preference_spec(),
    {
        self.preference
    }

    /// Prefer CTAPHID from now on.
    pub fn prefer_ctap(&mut self)
        ensures
            final(self).preference_spec() == TransportPreference::Ctap,
            final(self).uuid_spec() == old(self).uuid_spec(),
            final(self).version_spec() == old(self).version_spec(),
            final(self).has_ctap() == old(self).has_ctap(),
            final(self).has_pcsc() == old(self).has_pcsc(),
    {
        self.preference = TransportPreference::Ctap;
    }

    /// Prefer the smartcard channel from now on.
    pub fn prefer_pcsc(&mut self)
        ensures
            final(self).preference_spec() == TransportPreference::Pcsc,
            final(self).uuid_spec() == old(self).uuid_spec(),
            final(self).version_spec() == old(self).version_spec(),
            final(self).has_ctap() == old(self).has_ctap(),
            final(self).has_pcsc() == old(self).has_pcsc(),
    {
        self.preference = TransportPreference::Pcsc;
    }

    /// Firmware version on the device.
    pub fn version(&self) -> (r: Version)
        ensures
            r == self.version_spec(),
    {
        self.version
    }

    /// The CTAPHID handle, if any.
    pub fn as_ctap(&self) -> (r: Option<&C>)
        ensures
            r is Some == self.has_ctap(),
    {
        self.ctap.as_ref()
    }

    /// The smartcard handle, if any.
    pub fn as_pcsc(&self) -> (r: Option<&P>)
        ensures
            r is Some == self.has_pcsc(),
    {
        self.pcsc.as_ref()
    }

    /// The CTAPHID handle, if any, for direct use.
    pub fn as_ctap_mut(&mut self) -> (r: Option<&mut C>)
        ensures
            r is Some == old(self).has_ctap(),
    {
        self.ctap.as_mut()
    }

    /// The smartcard handle, if any, for direct use.
    pub fn as_pcsc_mut(&mut self) -> (r: Option<&mut P>)
        ensures
            r is Some == old(self).has_pcsc(),
    {
        self.pcsc.as_mut()
    }

    /// Gives the handles back.
    pub fn into_handles(self) -> (r: (Option<C>, Option<P>))
        ensures
            r.0 is Some == self.has_ctap(),
            r.1 is Some == self.has_pcsc(),
    {
        (self.ctap, self.pcsc)
    }

    /// Which handle calls go to.
    pub fn routed(&self) -> (r: Option<TransportPreference>)
        ensures
            r == route(self.preference_spec(), self.has_ctap(), self.has_pcsc()),
    {
        choose_handle(self.preference, self.ctap.is_some(), self.pcsc.is_some())
    }
}

impl<C, P> Identified for Solo2<C, P> {
    closed spec fn uuid_spec(&self) -> Uuid {
        self.uuid
    }

    fn uuid(&self) -> (r: Uuid) {
        self.uuid
    }
}

/// The handle grew by exactly one exchange.
pub open spec fn handle_grew<H: Transport>(before: Option<H>, after: Option<H>, e: Exchange) -> bool {
    match (before, after) {
        (Some(b), Some(a)) => a.log() == b.log().push(e),
        _ => false,
    }
}

/// The handle is the same one, its log only extended.
pub open spec fn log_extends<H: Transport>(before: Option<H>, after: Option<H>) -> bool {
    match (before, after) {
        (Some(b), Some(a)) => b.log().len() <= a.log().len() && a.log().take(b.log().len() as int)
            == b.log(),
        (None, None) => true,
        _ => false,
    }
}

proof fn lemma_extends_step<H: Transport>(before: Option<H>, after: Option<H>, e: Exchange)
    requires
        before == after || handle_grew(before, after, e),
    ensures
        log_extends(before, after),
{
    if let (Some(b), Some(a)) = (before, after) {
        assert(a.log().take(b.log().len() as int) =~= b.log());
    }
}

proof fn lemma_extends_trans<H: Transport>(a: Option<H>, b: Option<H>, c: Option<H>)
    requires
        log_extends(a, b),
        log_extends(b, c),
    ensures
        log_extends(a, c),
{
    if let (Some(x), Some(y), Some(z)) = (a, b, c) {
        assert(z.log().take(x.log().len() as int) =~= y.log().take(x.log().len() as int));
    }
}

/// The handle came from a probe that reported `uuid`: one of the probed
/// channels with that UUID, its log only extended since; no handle only if
/// no channel of that kind reported it.
pub open spec fn from_probe<H: Transport>(probes: Seq<(Uuid, H)>, uuid: Uuid, handle: Option<H>) -> bool {
    match handle {
        Some(h) => exists|k: int|
            0 <= k < probes.len() && probes[k].0 == uuid && log_extends(Some(probes[k].1), Some(h)),
        None => !probed(probes, uuid),
    }
}

/// The log grew by a selection of `aid` and, if that succeeded, by an
/// instruction without data.
pub open spec fn selected_then_called(before: Seq<Exchange>, after: Seq<Exchange>, aid: Seq<u8>, instruction: u8) -> bool {
    &&& after.len() >= before.len() + 1
    &&& after.take(before.len() as int) == before
    &&& after[before.len() as int] matches Exchange::Select(a, s) && a == aid && match s {
        Err(_) => after.len() == before.len() + 1,
        Ok(()) => after.len() == before.len() + 2 && (after[before.len() as int + 1] matches Exchange::Call(
            i,
            d,
            _,
        ) && i == instruction && d == Seq::<u8>::empty()),
    }
}

/// The outcome of a selection followed by an instruction: the selection's
/// error, or the instruction's reply.
pub open spec fn select_call_reply(before: Seq<Exchange>, after: Seq<Exchange>) -> Result<Seq<u8>, Error> {
    match after[before.len() as int] {
        Exchange::Select(_, Err(e)) => Err(e),
        _ => last_reply(after),
    }
}

impl<C: Transport, P: Transport> Solo2<C, P> {
    /// The exchanges made through this device.
    pub closed spec fn exchanges_spec(&self) -> Seq<Exchange> {
        self.exchanges@
    }

    /// A call on the routed handle: the preferred one if present, else the
    /// other. That handle receives the instruction and data, its reply is
    /// returned, and the other handle is untouched; the device's identity,
    /// version and set of handles stay as they were.
    pub fn call_routed(&mut self, instruction: u8, data: &[u8]) -> (r: Result<Vec<u8>, Error>)
        ensures
            final(self).uuid_spec() == old(self).uuid_spec(),
            final(self).version_spec() == old(self).version_spec(),
            final(self).preference_spec() == old(self).preference_spec(),
            final(self).has_ctap() == old(self).has_ctap(),
            final(self).has_pcsc() == old(self).has_pcsc(),
            final(self).exchanges_spec() == old(self).exchanges_spec().push(
                Exchange::Call(instruction, data@, reply_view(r)),
            ),
            route(old(self).preference_spec(), old(self).has_ctap(), old(self).has_pcsc()) is None
                ==> r == Err::<Vec<u8>, Error>(Error::TransportUnavailable)
                && final(self).ctap_handle() == old(self).ctap_handle()
                && final(self).pcsc_handle() == old(self).pcsc_handle(),
            route(old(self).preference_spec(), old(self).has_ctap(), old(self).has_pcsc()) == Some(
                TransportPreference::Ctap,
            ) ==> final(self).pcsc_handle() == old(self).pcsc_handle() && handle_grew(
                old(self).ctap_handle(),
                final(self).ctap_handle(),
                Exchange::Call(instruction, data@, reply_view(r)),
            ),
            route(old(self).preference_spec(), old(self).has_ctap(), old(self).has_pcsc()) == Some(
                TransportPreference::Pcsc,
            ) ==> final(self).ctap_handle() == old(self).ctap_handle() && handle_grew(
                old(self).pcsc_handle(),
                final(self).pcsc_handle(),
                Exchange::Call(instruction, data@, reply_view(r)),
            ),
    {
        let r = match choose_handle(self.preference, self.ctap.is_some(), self.pcsc.is_some()) {
            Some(TransportPreference::Ctap) => match &mut self.ctap {
                Some(device) => device.call(instruction, data),
                None => Err(Error::TransportUnavailable),
            },
            Some(TransportPreference::Pcsc) => match &mut self.pcsc {
                Some(device) => device.call(instruction, data),
                None => Err(Error::TransportUnavailable),
            },
            None => Err(Error::TransportUnavailable),
        };
        self.exchanges = Ghost(self.exchanges@.push(Exchange::Call(instruction, data@, reply_view(r))));
        r
    }

    /// An ISO 7816 call: forwarded with its arguments to the smartcard handle
    /// and its reply returned; without one, [`Error::TransportUnavailable`] and
    /// no I/O. The CTAPHID handle is never used.
    pub fn call_iso_routed(&mut self, class: u8, instruction: u8, p1: u8, p2: u8, data: &[u8]) -> (r:
        Result<Vec<u8>, Error>)
        ensures
            final(self).uuid_spec() == old(self).uuid_spec(),
            final(self).version_spec() == old(self).version_spec(),
            final(self).preference_spec() == old(self).preference_spec(),
            final(self).has_ctap() == old(self).has_ctap(),
            final(self).has_pcsc() == old(self).has_pcsc(),
            final(self).exchanges_spec() == old(self).exchanges_spec().push(
                Exchange::Iso(class, instruction, p1, p2, data@, reply_view(r)),
            ),
            final(self).ctap_handle() == old(self).ctap_handle(),
            !old(self).has_pcsc() ==> r == Err::<Vec<u8>, Error>(Error::TransportUnavailable)
                && final(self).pcsc_handle() == old(self).pcsc_handle(),
            old(self).has_pcsc() ==> handle_grew(
                old(self).pcsc_handle(),
                final(self).pcsc_handle(),
                Exchange::Iso(class, instruction, p1, p2, data@, reply_view(r)),
            ),
    {
        let r = match &mut self.pcsc {
            Some(device) => device.call_iso(class, instruction, p1, p2, data),
            None => Err(Error::TransportUnavailable),
        };
        self.exchanges = Ghost(
            self.exchanges@.push(Exchange::Iso(class, instruction, p1, p2, data@, reply_view(r))),
        );
        r
    }

    /// Selects an application: a real SELECT of `aid` over the smartcard
    /// handle, whose outcome is returned; nothing over CTAPHID.
    pub fn select_routed(&mut self, aid: Vec<u8>) -> (r: Result<(), Error>)
        ensures
            final(self).uuid_spec() == old(self).uuid_spec(),
            final(self).version_spec() == old(self).version_spec(),
            final(self).preference_spec() == old(self).preference_spec(),
            final(self).has_ctap() == old(self).has_ctap(),
            final(self).has_pcsc() == old(self).has_pcsc(),
            final(self).exchanges_spec() == old(self).exchanges_spec().push(Exchange::Select(aid@, r)),
            final(self).ctap_handle() == old(self).ctap_handle(),
            !old(self).has_pcsc() ==> r is Ok && final(self).pcsc_handle() == old(self).pcsc_handle(),
            old(self).has_pcsc() ==> handle_grew(
                old(self).pcsc_handle(),
                final(self).pcsc_handle(),
                Exchange::Select(aid@, r),
            ),
    {
        let ghost sent = aid@;
        let r = match &mut self.pcsc {
            Some(device) => device.select(aid),
            None => Ok(()),
        };
        self.exchanges = Ghost(self.exchanges@.push(Exchange::Select(sent, r)));
        r
    }

    /// Reads the firmware version through the administrative application: a
    /// SELECT of its identifier and, if that succeeds, the get-version
    /// instruction without data, whose reply is decoded.
    pub fn fetch_version(&mut self) -> (r: Result<Version, Error>)
        ensures
            final(self).uuid_spec() == old(self).uuid_spec(),
            final(self).version_spec() == old(self).version_spec(),
            final(self).preference_spec() == old(self).preference_spec(),
            final(self).has_ctap() == old(self).has_ctap(),
            final(self).has_pcsc() == old(self).has_pcsc(),
            selected_then_called(old(self).exchanges_spec(), final(self).exchanges_spec(), admin_aid(), VERSION_COMMAND),
            log_extends(old(self).ctap_handle(), final(self).ctap_handle()),
            log_extends(old(self).pcsc_handle(), final(self).pcsc_handle()),
            r == match select_call_reply(old(self).exchanges_spec(), final(self).exchanges_spec()) {
                Ok(b) => version_of_reply(b),
                Err(e) => Err(e),
            },
    {
        let ghost before = self.exchanges_spec();
        let ghost c0 = self.ctap_handle();
        let ghost p0 = self.pcsc_handle();
        let aid = concat_aid(&Rid::SOLOKEYS, &Pix::ADMIN);
        assert(aid@ =~= admin_aid());
        let selected = self.select_routed(aid);
        proof {
            lemma_extends_step(c0, self.ctap_handle(), Exchange::Select(admin_aid(), selected));
            lemma_extends_step(p0, self.pcsc_handle(), Exchange::Select(admin_aid(), selected));
        }
        match selected {
            Ok(()) => {},
            Err(e) => {
                assert(self.exchanges_spec().take(before.len() as int) =~= before);
                return Err(e);
            },
        }
        let ghost c1 = self.ctap_handle();
        let ghost p1 = self.pcsc_handle();
        let empty: Vec<u8> = Vec::new();
        let reply = self.call_routed(VERSION_COMMAND, empty.as_slice());
        proof {
            let e = Exchange::Call(VERSION_COMMAND, empty@, reply_view(reply));
            lemma_extends_step(c1, self.ctap_handle(), e);
            lemma_extends_step(p1, self.pcsc_handle(), e);
            lemma_extends_trans(c0, c1, self.ctap_handle());
            lemma_extends_trans(p0, p1, self.pcsc_handle());
        }
        assert(empty@ =~= Seq::<u8>::empty());
        assert(self.exchanges_spec().take(before.len() as int) =~= before);
        match reply {
            Ok(b) => version_from_reply(b.as_slice()),
            Err(e) => Err(e),
        }
    }
}

impl<C: Transport, P: Transport> Transport for Solo2<C, P> {
    closed spec fn log(&self) -> ExchangeLog {
        self.exchanges@
    }

    /// Routed as [`Solo2::call_routed`] states.
    fn call(&mut self, instruction: u8, data: &[u8]) -> (r: Result<Vec<u8>, Error>)
        ensures
            final(self).uuid_spec() == old(self).uuid_spec(),
            final(self).version_spec() == old(self).version_spec(),
            final(self).preference_spec() == old(self).preference_spec(),
            final(self).has_ctap() == old(self).has_ctap(),
            final(self).has_pcsc() == old(self).has_pcsc(),
            final(self).exchanges_spec() == old(self).exchanges_spec().push(
                Exchange::Call(instruction, data@, reply_view(r)),
            ),
            route(old(self).preference_spec(), old(self).has_ctap(), old(self).has_pcsc()) is None
                ==> r == Err::<Vec<u8>, Error>(Error::TransportUnavailable)
                && final(self).ctap_handle() == old(self).ctap_handle()
                && final(self).pcsc_handle() == old(self).pcsc_handle(),
            route(old(self).preference_spec(), old(self).has_ctap(), old(self).has_pcsc()) == Some(
                TransportPreference::Ctap,
            ) ==> final(self).pcsc_handle() == old(self).pcsc_handle() && handle_grew(
                old(self).ctap_handle(),
                final(self).ctap_handle(),
                Exchange::Call(instruction, data@, reply_view(r)),
            ),
            route(old(self).preference_spec(), old(self).has_ctap(), old(self).has_pcsc()) == Some(
                TransportPreference::Pcsc,
            ) ==> final(self).ctap_handle() == old(self).ctap_handle() && handle_grew(
                old(self).pcsc_handle(),
                final(self).pcsc_handle(),
                Exchange::Call(instruction, data@, reply_view(r)),
            ),
    {
        self.call_routed(instruction, data)
    }

    /// Routed as [`Solo2::call_iso_routed`] states.
    fn call_iso(&mut self, class: u8, instruction: u8, p1: u8, p2: u8, data: &[u8]) -> (r: Result<
        Vec<u8>,
        Error,
    >)
        ensures
            final(self).uuid_spec() == old(self).uuid_spec(),
            final(self).version_spec() == old(self).version_spec(),
            final(self).preference_spec() == old(self).preference_spec(),
            final(self).has_ctap() == old(self).has_ctap(),
            final(self).has_pcsc() == old(self).has_pcsc(),
            final(self).exchanges_spec() == old(self).exchanges_spec().push(
                Exchange::Iso(class, instruction, p1, p2, data@, reply_view(r)),
            ),
            final(self).ctap_handle() == old(self).ctap_handle(),
            !old(self).has_pcsc() ==> r == Err::<Vec<u8>, Error>(Error::TransportUnavailable)
                && final(self).pcsc_handle() == old(self).pcsc_handle(),
            old(self).has_pcsc() ==> handle_grew(
                old(self).pcsc_handle(),
                final(self).pcsc_handle(),
                Exchange::Iso(class, instruction, p1, p2, data@, reply_view(r)),
            ),
    {
        self.call_iso_routed(class, instruction, p1, p2, data)
    }

    /// Routed as [`Solo2::select_routed`] states.
    fn select(&mut self, aid: Vec<u8>) -> (r: Result<(), Error>)
        ensures
            final(self).uuid_spec() == old(self).uuid_spec(),
            final(self).version_spec() == old(self).version_spec(),
            final(self).preference_spec() == old(self).preference_spec(),
            final(self).has_ctap() == old(self).has_ctap(),
            final(self).has_pcsc() == old(self).has_pcsc(),
            final(self).exchanges_spec() == old(self).exchanges_spec().push(Exchange::Select(aid@, r)),
            final(self).ctap_handle() == old(self).ctap_handle(),
            !old(self).has_pcsc() ==> r is Ok && final(self).pcsc_handle() == old(self).pcsc_handle(),
            old(self).has_pcsc() ==> handle_grew(
                old(self).pcsc_handle(),
                final(self).pcsc_handle(),
                Exchange::Select(aid@, r),
            ),
    {
        self.select_routed(aid)
    }
}

/// Probes a raw channel for its identity: a SELECT of the administrative
/// application and, if that succeeds, the get-UUID instruction without data.
/// A UUID comes back exactly when the reply is 16 bytes; anything else
/// (wrong length, failure status, I/O error) means the channel is not one of
/// these devices.
pub fn probe_identity<T: Transport>(transport: &mut T) -> (r: Option<Uuid>)
    ensures
        selected_then_called(old(transport).log(), final(transport).log(), admin_aid(), UUID_COMMAND),
        r == match select_call_reply(old(transport).log(), final(transport).log()) {
            Ok(b) => match uuid_of_reply(b) {
                Ok(u) => Some(u),
                Err(_) => None,
            },
            Err(_) => None::<Uuid>,
        },
{
    let ghost before = transport.log();
    let aid = concat_aid(&Rid::SOLOKEYS, &Pix::ADMIN);
    assert(aid@ =~= admin_aid());
    match transport.select(aid) {
        Ok(()) => {},
        Err(_) => {
            assert(transport.log().take(before.len() as int) =~= before);
            return None;
        },
    }
    let reply = transport.instruct(UUID_COMMAND);
    assert(transport.log().take(before.len() as int) =~= before);
    match reply {
        Ok(b) => match uuid_from_reply(b.as_slice()) {
            Ok(u) => Some(u),
            Err(_) => None,
        },
        Err(_) => None,
    }
}

/// Channels that answered the identity probe with one UUID.
pub struct Candidate<C, P> {
    pub uuid: Uuid,
    pub ctap: Option<C>,
    pub pcsc: Option<P>,
}

/// Whether a UUID occurs among probed channels.
pub open spec fn probed<H>(s: Seq<(Uuid, H)>, u: Uuid) -> bool {
    exists|k: int| 0 <= k < s.len() && (#[trigger] s[k]).0 == u
}

/// Whether a merge of probed channels is right: one record per distinct UUID,
/// in order of first appearance (CTAPHID channels first), each with the first
/// handle of each kind that reported that UUID.
pub open spec fn merged<C, P>(ctaps: Seq<(Uuid, C)>, pcscs: Seq<(Uuid, P)>, r: Seq<Candidate<C, P>>) -> bool {
    &&& forall|i: int, j: int| 0 <= i < j < r.len() ==> r[i].uuid != r[j].uuid
    &&& forall|u: Uuid| (exists|i: int| 0 <= i < r.len() && r[i].uuid == u) <==> (probed(ctaps, u) || probed(pcscs, u))
    &&& forall|i: int| 0 <= i < r.len() ==> (r[i].ctap is Some <==> probed(ctaps, #[trigger] r[i].uuid))
    &&& forall|i: int| 0 <= i < r.len() ==> (r[i].pcsc is Some <==> probed(pcscs, #[trigger] r[i].uuid))
    &&& forall|i: int| 0 <= i < r.len() ==> (#[trigger] r[i]).ctap is Some || r[i].pcsc is Some
    &&& forall|i: int| 0 <= i < r.len() ==> ((#[trigger] r[i]).ctap matches Some(c) ==> exists|k: int| 0 <= k < ctaps.len() && ctaps[k] == (r[i].uuid, c))
    &&& forall|i: int| 0 <= i < r.len() ==> ((#[trigger] r[i]).pcsc matches Some(p) ==> exists|k: int| 0 <= k < pcscs.len() && pcscs[k] == (r[i].uuid, p))
}

/// The index of the record with a UUID, if any.
fn find_uuid<C, P>(records: &Vec<Candidate<C, P>>, uuid: Uuid) -> (r: Option<usize>)
    ensures
        r matches Some(i) ==> i < records@.len() && records@[i as int].uuid == uuid,
        r is None ==> forall|i: int| 0 <= i < records@.len() ==> records@[i].uuid != uuid,
{
    let mut i: usize = 0;
    while i < records.len()
        invariant
            i <= records@.len(),
            forall|j: int| 0 <= j < i ==> records@[j].uuid != uuid,
        decreases records@.len() - i,
    {
        if records[i].uuid == uuid {
            return Some(i);
        }
        i = i + 1;
    }
    None
}

/// Groups probed channels by UUID into one record per physical device.
pub fn merge<C, P>(ctaps: Vec<(Uuid, C)>, pcscs: Vec<(Uuid, P)>) -> (r: Vec<Candidate<C, P>>)
    ensures
        merged(ctaps@, pcscs@, r@),
{
    let ghost all_c = ctaps@;
    let ghost all_p = pcscs@;
    let mut ctaps = ctaps;
    let mut pcscs = pcscs;
    let mut records: Vec<Candidate<C, P>> = Vec::new();
    let ghost mut n: int = 0;
    while ctaps.len() > 0
        invariant
            0 <= n <= all_c.len(),
            ctaps@ == all_c.skip(n),
            merged(all_c.take(n), Seq::<(Uuid, P)>::empty(), records@),
        decreases ctaps@.len(),
    {
        let (uuid, device) = ctaps.remove(0);
        let ghost prefix = all_c.take(n);
        let ghost next = all_c.take(n + 1);
        assert(all_c[n] == (uuid, device)) by {
            assert(all_c.skip(n)[0] == all_c[n]);
        }
        assert(next =~= prefix.push((uuid, device)));
        proof {
            assert forall|u: Uuid| probed(next, u) <==> (probed(prefix, u) || u == uuid) by {
                if probed(next, u) {
                    let k = choose|k: int| 0 <= k < next.len() && (#[trigger] next[k]).0 == u;
                    if k < prefix.len() {
                        assert(prefix[k] == next[k]);
                    }
                }
                if probed(prefix, u) {
                    let k = choose|k: int| 0 <= k < prefix.len() && (#[trigger] prefix[k]).0 == u;
                    assert(next[k] == prefix[k]);
                }
                if u == uuid {
                    assert(next[n].0 == u);
                }
            }
            assert forall|k: int| 0 <= k < prefix.len() implies next[k] == prefix[k] by {}
        }
        match find_uuid(&records, uuid) {
            Some(_) => {},
            None => {
                let ghost old_records = records@;
                records.push(Candidate { uuid, ctap: Some(device), pcsc: None });
                proof {
                    let r = records@;
                    assert forall|i: int| 0 <= i < r.len() - 1 implies r[i] == old_records[i] by {}
                    assert(next[n] == (uuid, device));
                    assert forall|u: Uuid| (exists|i: int| 0 <= i < r.len() && r[i].uuid == u) <==> (probed(next, u) || probed(Seq::<(Uuid, P)>::empty(), u)) by {
                        if exists|i: int| 0 <= i < r.len() && r[i].uuid == u {
                            let i = choose|i: int| 0 <= i < r.len() && r[i].uuid == u;
                            if i < r.len() - 1 {
                                assert(old_records[i].uuid == u);
                            }
                        }
                        if probed(prefix, u) {
                            let i = choose|i: int| 0 <= i < old_records.len() && old_records[i].uuid == u;
                            assert(r[i].uuid == u);
                        }
                        if u == uuid {
                            assert(r[r.len() - 1].uuid == u);
                        }
                    }
                }
            },
        }
        proof {
            n = n + 1;
            assert(all_c.skip(n) =~= ctaps@);
        }
    }
    assert(all_c.take(n) =~= all_c);
    let ghost mut m: int = 0;
    assert(all_p.take(0) =~= Seq::<(Uuid, P)>::empty());
    while pcscs.len() > 0
        invariant
            0 <= m <= all_p.len(),
            pcscs@ == all_p.skip(m),
            merged(all_c, all_p.take(m), records@),
        decreases pcscs@.len(),
    {
        let (uuid, device) = pcscs.remove(0);
        let ghost prefix = all_p.take(m);
        let ghost next = all_p.take(m + 1);
        assert(all_p[m] == (uuid, device)) by {
            assert(all_p.skip(m)[0] == all_p[m]);
        }
        assert(next =~= prefix.push((uuid, device)));
        proof {
            assert forall|u: Uuid| probed(next, u) <==> (probed(prefix, u) || u == uuid) by {
                if probed(next, u) {
                    let k = choose|k: int| 0 <= k < next.len() && (#[trigger] next[k]).0 == u;
                    if k < prefix.len() {
                        assert(prefix[k] == next[k]);
                    }
                }
                if probed(prefix, u) {
                    let k = choose|k: int| 0 <= k < prefix.len() && (#[trigger] prefix[k]).0 == u;
                    assert(next[k] == prefix[k]);
                }
                if u == uuid {
                    assert(next[m].0 == u);
                }
            }
            assert forall|k: int| 0 <= k < prefix.len() implies next[k] == prefix[k] by {}
        }
        match find_uuid(&records, uuid) {
            Some(i) => {
                if records[i].pcsc.is_none() {
                    let ghost old_records = records@;
                    let record = records.remove(i);
                    let updated = Candidate { uuid: record.uuid, ctap: record.ctap, pcsc: Some(device) };
                    records.insert(i, updated);
                    proof {
                        let r = records@;
                        assert forall|j: int| 0 <= j < r.len() && j != i implies r[j] == old_records[j] by {}
                        assert(r[i as int].uuid == old_records[i as int].uuid);
                        assert(r[i as int].ctap == old_records[i as int].ctap);
                        assert forall|u: Uuid| (exists|j: int| 0 <= j < r.len() && r[j].uuid == u) <==> (probed(all_c, u) || probed(next, u)) by {
                            if exists|j: int| 0 <= j < r.len() && r[j].uuid == u {
                                let j = choose|j: int| 0 <= j < r.len() && r[j].uuid == u;
                                assert(old_records[j].uuid == u);
                            }
                            if probed(all_c, u) || probed(prefix, u) {
                                let j = choose|j: int| 0 <= j < old_records.len() && old_records[j].uuid == u;
                                assert(r[j].uuid == u);
                            }
                            if u == uuid {
                                assert(r[i as int].uuid == u);
                            }
                        }
                        assert(next[m] == (uuid, device));
                    }
                } else {
                    proof {
                        let r = records@;
                        assert forall|u: Uuid| (exists|j: int| 0 <= j < r.len() && r[j].uuid == u) <==> (probed(all_c, u) || probed(next, u)) by {
                            if u == uuid {
                                assert(r[i as int].uuid == u);
                            }
                        }
                    }
                }
            },
            None => {
                let ghost old_records = records@;
                records.push(Candidate { uuid, ctap: None, pcsc: Some(device) });
                proof {
                    let r = records@;
                    assert forall|j: int| 0 <= j < r.len() - 1 implies r[j] == old_records[j] by {}
                    assert(next[m] == (uuid, device));
                    assert(!probed(all_c, uuid));
                    assert forall|u: Uuid| (exists|j: int| 0 <= j < r.len() && r[j].uuid == u) <==> (probed(all_c, u) || probed(next, u)) by {
                        if exists|j: int| 0 <= j < r.len() && r[j].uuid == u {
                            let j = choose|j: int| 0 <= j < r.len() && r[j].uuid == u;
                            if j < r.len() - 1 {
                                assert(old_records[j].uuid == u);
                            }
                        }
                        if probed(all_c, u) || probed(prefix, u) {
                            let j = choose|j: int| 0 <= j < old_records.len() && old_records[j].uuid == u;
                            assert(r[j].uuid == u);
                        }
                        if u == uuid {
                            assert(r[r.len() - 1].uuid == u);
                        }
                    }
                }
            },
        }
        proof {
            m = m + 1;
            assert(all_p.skip(m) =~= pcscs@);
        }
    }
    assert(all_p.take(m) =~= all_p);
    records
}

/// The devices whose version read succeeded, in order, each carrying that version.
pub open spec fn kept<C, P>(devices: Seq<Solo2<C, P>>, versions: Seq<Result<Version, Error>>) -> Seq<
    Solo2<C, P>,
>
    decreases devices.len(),
{
    if devices.len() == 0 || versions.len() == 0 {
        Seq::empty()
    } else {
        let rest = kept(devices.drop_last(), versions.drop_last());
        match versions.last() {
            Ok(v) => rest.push(devices.last().with_version(v)),
            Err(_) => rest,
        }
    }
}

/// Decides which opened devices to keep: one per device whose version read
/// (given in `versions`, by position) succeeded, in order, with that version.
pub fn assemble<C, P>(devices: Vec<Solo2<C, P>>, versions: Vec<Result<Version, Error>>) -> (r: Vec<
    Solo2<C, P>,
>)
    requires
        devices@.len() == versions@.len(),
    ensures
        r@ == kept(devices@, versions@),
{
    let ghost ds = devices@;
    let ghost vs = versions@;
    let mut devices = devices;
    let mut versions = versions;
    let mut out: Vec<Solo2<C, P>> = Vec::new();
    let ghost mut n: int = 0;
    assert(ds.take(0) =~= Seq::<Solo2<C, P>>::empty());
    while devices.len() > 0
        invariant
            0 <= n <= ds.len(),
            ds.len() == vs.len(),
            devices@ == ds.skip(n),
            versions@ == vs.skip(n),
            out@ == kept(ds.take(n), vs.take(n)),
        decreases devices@.len(),
    {
        let mut device = devices.remove(0);
        let version = versions.remove(0);
        assert(ds.skip(n)[0] == ds[n]);
        assert(vs.skip(n)[0] == vs[n]);
        assert(ds.take(n + 1).drop_last() =~= ds.take(n));
        assert(vs.take(n + 1).drop_last() =~= vs.take(n));
        match version {
            Ok(v) => {
                device.version = v;
                assert(device == ds[n].with_version(v));
                out.push(device);
            },
            Err(_) => {},
        }
        proof {
            n = n + 1;
            assert(ds.skip(n) =~= devices@);
            assert(vs.skip(n) =~= versions@);
        }
    }
    assert(ds.take(n) =~= ds);
    assert(vs.take(n) =~= vs);
    out
}

/// What the devices kept have in common with the devices they came from.
proof fn lemma_kept<C, P>(ds: Seq<Solo2<C, P>>, vs: Seq<Result<Version, Error>>)
    ensures
        forall|i: int|
            0 <= i < kept(ds, vs).len() ==> exists|k: int|
                0 <= k < ds.len() && (#[trigger] kept(ds, vs)[i]).uuid_spec() == ds[k].uuid_spec()
                    && kept(ds, vs)[i].ctap_handle() == ds[k].ctap_handle() && kept(ds, vs)[i].pcsc_handle()
                    == ds[k].pcsc_handle(),
        (forall|a: int, b: int| 0 <= a < b < ds.len() ==> ds[a].uuid_spec() != ds[b].uuid_spec())
            ==> forall|a: int, b: int|
            0 <= a < b < kept(ds, vs).len() ==> kept(ds, vs)[a].uuid_spec() != kept(
                ds,
                vs,
            )[b].uuid_spec(),
    decreases ds.len(),
{
    if ds.len() > 0 && vs.len() > 0 {
        let d0 = ds.drop_last();
        let v0 = vs.drop_last();
        lemma_kept(d0, v0);
        let rest = kept(d0, v0);
        assert forall|i: int| 0 <= i < rest.len() implies exists|k: int|
            0 <= k < ds.len() - 1 && (#[trigger] rest[i]).uuid_spec() == ds[k].uuid_spec()
                && rest[i].ctap_handle() == ds[k].ctap_handle() && rest[i].pcsc_handle() == ds[k].pcsc_handle() by {
            let k = choose|k: int|
                0 <= k < d0.len() && (#[trigger] rest[i]).uuid_spec() == d0[k].uuid_spec()
                    && rest[i].ctap_handle() == d0[k].ctap_handle() && rest[i].pcsc_handle() == d0[k].pcsc_handle();
            assert(d0[k] == ds[k]);
        }
        match vs.last() {
            Ok(v) => {
                let k = kept(ds, vs);
                assert(k == rest.push(ds.last().with_version(v)));
                assert forall|i: int| 0 <= i < k.len() implies exists|j: int|
                    0 <= j < ds.len() && (#[trigger] k[i]).uuid_spec() == ds[j].uuid_spec()
                        && k[i].ctap_handle() == ds[j].ctap_handle() && k[i].pcsc_handle() == ds[j].pcsc_handle() by {
                    if i == k.len() - 1 {
                        assert(k[i] == ds.last().with_version(v));
                        assert(k[i].uuid_spec() == ds[ds.len() - 1].uuid_spec());
                    } else {
                        assert(k[i] == rest[i]);
                    }
                }
                if forall|a: int, b: int| 0 <= a < b < ds.len() ==> ds[a].uuid_spec() != ds[b].uuid_spec() {
                    assert forall|a: int, b: int| 0 <= a < b < d0.len() implies d0[a].uuid_spec()
                        != d0[b].uuid_spec() by {
                        assert(d0[a] == ds[a] && d0[b] == ds[b]);
                    }
                    assert forall|a: int, b: int| 0 <= a < b < k.len() implies k[a].uuid_spec()
                        != k[b].uuid_spec() by {
                        assert(k[a] == rest[a]);
                        if b == k.len() - 1 {
                            assert(k[b].uuid_spec() == ds[ds.len() - 1].uuid_spec());
                            let j = choose|j: int|
                                0 <= j < ds.len() - 1 && (#[trigger] rest[a]).uuid_spec() == ds[j].uuid_spec()
                                    && rest[a].ctap_handle() == ds[j].ctap_handle() && rest[a].pcsc_handle()
                                    == ds[j].pcsc_handle();
                        } else {
                            assert(k[b] == rest[b]);
                        }
                    }
                }
            },
            Err(_) => {
                if forall|a: int, b: int| 0 <= a < b < ds.len() ==> ds[a].uuid_spec() != ds[b].uuid_spec() {
                    assert forall|a: int, b: int| 0 <= a < b < d0.len() implies d0[a].uuid_spec()
                        != d0[b].uuid_spec() by {
                        assert(d0[a] == ds[a] && d0[b] == ds[b]);
                    }
                }
            },
        }
    }
}

/// Every device whose version read succeeded is kept.
proof fn lemma_kept_complete<C, P>(ds: Seq<Solo2<C, P>>, vs: Seq<Result<Version, Error>>, k: int)
    requires
        ds.len() == vs.len(),
        0 <= k < ds.len(),
        vs[k] is Ok,
    ensures
        exists|i: int| 0 <= i < kept(ds, vs).len() && kept(ds, vs)[i].uuid_spec() == ds[k].uuid_spec(),
    decreases ds.len(),
{
    let d0 = ds.drop_last();
    let v0 = vs.drop_last();
    let rest = kept(d0, v0);
    let kk = kept(ds, vs);
    let n = ds.len() - 1;
    if k < n {
        assert(v0[k] == vs[k] && d0[k] == ds[k]);
        lemma_kept_complete(d0, v0, k);
        let i = choose|i: int| 0 <= i < rest.len() && rest[i].uuid_spec() == d0[k].uuid_spec();
        match vs.last() {
            Ok(v) => {
                assert(kk == rest.push(ds.last().with_version(v)));
            },
            Err(_) => {},
        }
        assert(kk[i] == rest[i]);
    } else {
        match vs.last() {
            Ok(v) => {
                assert(kk == rest.push(ds.last().with_version(v)));
                assert(kk[kk.len() - 1].uuid_spec() == ds[n].uuid_spec());
            },
            Err(_) => {},
        }
    }
}

/// Every kept device's version read succeeded.
proof fn lemma_kept_sound<C, P>(ds: Seq<Solo2<C, P>>, vs: Seq<Result<Version, Error>>, i: int)
    requires
        ds.len() == vs.len(),
        0 <= i < kept(ds, vs).len(),
    ensures
        exists|k: int| 0 <= k < ds.len() && vs[k] is Ok && kept(ds, vs)[i].uuid_spec() == ds[k].uuid_spec(),
    decreases ds.len(),
{
    let d0 = ds.drop_last();
    let v0 = vs.drop_last();
    let rest = kept(d0, v0);
    let kk = kept(ds, vs);
    let n = ds.len() - 1;
    match vs.last() {
        Ok(v) => {
            assert(kk == rest.push(ds.last().with_version(v)));
            if i < rest.len() {
                lemma_kept_sound(d0, v0, i);
                let k = choose|k: int| 0 <= k < d0.len() && v0[k] is Ok && rest[i].uuid_spec() == d0[k].uuid_spec();
                assert(v0[k] == vs[k] && d0[k] == ds[k]);
                assert(kk[i] == rest[i]);
            } else {
                assert(kk[i].uuid_spec() == ds[n].uuid_spec());
            }
        },
        Err(_) => {
            lemma_kept_sound(d0, v0, i);
            let k = choose|k: int| 0 <= k < d0.len() && v0[k] is Ok && rest[i].uuid_spec() == d0[k].uuid_spec();
            assert(v0[k] == vs[k] && d0[k] == ds[k]);
        },
    }
}

/// Builds logical devices from probed channels: one per distinct UUID,
/// combining the channels that reported it (see [`merge`]), each with its
/// firmware version read once through the administrative application
/// ([`Solo2::fetch_version`]); [`assemble`] keeps, in that order, the devices
/// whose version could be read.
/// Whether a UUID is accounted for: a device carries it, or it is listed as unreadable.
pub open spec fn covered<C, P>(devices: Seq<Solo2<C, P>>, unreadable: Seq<Uuid>, u: Uuid) -> bool {
    (exists|i: int| 0 <= i < devices.len() && (#[trigger] devices[i]).uuid_spec() == u) || unreadable.contains(u)
}

/// Whether a UUID is one, by position, whose version read failed.
pub open spec fn is_failed(uuids: Seq<Uuid>, versions: Seq<Result<Version, Error>>, u: Uuid) -> bool {
    exists|k: int| 0 <= k < uuids.len() && k < versions.len() && uuids[k] == u && versions[k] is Err
}

/// The UUIDs, by position, whose version read failed.
fn failed_uuids(uuids: &Vec<Uuid>, versions: &Vec<Result<Version, Error>>) -> (r: Vec<Uuid>)
    requires
        uuids@.len() == versions@.len(),
    ensures
        forall|j: int| 0 <= j < r@.len() ==> is_failed(uuids@, versions@, #[trigger] r@[j]),
        forall|k: int| 0 <= k < uuids@.len() && (#[trigger] versions@[k]) is Err ==> r@.contains(uuids@[k]),
{
    let mut r: Vec<Uuid> = Vec::new();
    let mut i: usize = 0;
    while i < uuids.len()
        invariant
            i <= uuids@.len(),
            uuids@.len() == versions@.len(),
            forall|j: int| 0 <= j < r@.len() ==> is_failed(uuids@, versions@, #[trigger] r@[j]),
            forall|k: int| 0 <= k < i && (#[trigger] versions@[k]) is Err ==> r@.contains(uuids@[k]),
        decreases uuids@.len() - i,
    {
        let ghost old_r = r@;
        match &versions[i] {
            Ok(_) => {},
            Err(_) => {
                r.push(uuids[i]);
                assert forall|j: int| 0 <= j < r@.len() implies is_failed(uuids@, versions@, #[trigger] r@[j]) by {
                    if j < old_r.len() {
                        assert(r@[j] == old_r[j]);
                    } else {
                        assert(uuids@[i as int] == r@[j] && versions@[i as int] is Err);
                    }
                }
                assert forall|k: int| 0 <= k < i + 1 && (#[trigger] versions@[k]) is Err implies r@.contains(uuids@[k]) by {
                    if k < i {
                        let j = choose|j: int| 0 <= j < old_r.len() && old_r[j] == uuids@[k];
                        assert(r@[j] == old_r[j]);
                    } else {
                        assert(r@[r@.len() - 1] == uuids@[k]);
                    }
                }
            },
        }
        i = i + 1;
    }
    r
}

/// The devices opened from merged records: one per record, in order, with
/// that record's UUID and handles (their logs only extended).
pub open spec fn opened_from<C: Transport, P: Transport>(
    cs: Seq<(Uuid, C)>,
    ps: Seq<(Uuid, P)>,
    all: Seq<Candidate<C, P>>,
    opened: Seq<Solo2<C, P>>,
) -> bool {
    &&& opened.len() == all.len()
    &&& forall|i: int|
        0 <= i < opened.len() ==> (#[trigger] opened[i]).uuid_spec() == all[i].uuid && opened[i].wf()
            && opened[i].has_ctap() == all[i].ctap is Some && opened[i].has_pcsc() == all[i].pcsc is Some
            && from_probe(cs, all[i].uuid, opened[i].ctap_handle())
            && from_probe(ps, all[i].uuid, opened[i].pcsc_handle())
}

/// What discovery's result states, given the merged records, the devices
/// opened from them, their version outcomes and the UUIDs whose read failed.
proof fn lemma_discovery<C: Transport, P: Transport>(
    cs: Seq<(Uuid, C)>,
    ps: Seq<(Uuid, P)>,
    all: Seq<Candidate<C, P>>,
    opened: Seq<Solo2<C, P>>,
    outcomes: Seq<Result<Version, Error>>,
    uuids: Seq<Uuid>,
    fails: Seq<Uuid>,
)
    requires
        merged(cs, ps, all),
        opened_from(cs, ps, all, opened),
        outcomes.len() == opened.len(),
        uuids.len() == opened.len(),
        forall|k: int| 0 <= k < uuids.len() ==> uuids[k] == all[k].uuid,
        forall|j: int| 0 <= j < fails.len() ==> is_failed(uuids, outcomes, #[trigger] fails[j]),
        forall|k: int| 0 <= k < uuids.len() && (#[trigger] outcomes[k]) is Err ==> fails.contains(uuids[k]),
    ensures
        ({
            let r = kept(opened, outcomes);
            &&& forall|i: int, j: int| 0 <= i < j < r.len() ==> r[i].uuid_spec() != r[j].uuid_spec()
            &&& forall|i: int|
                0 <= i < r.len() ==> (#[trigger] r[i]).wf() && r[i].has_ctap() == probed(cs, r[i].uuid_spec())
                    && r[i].has_pcsc() == probed(ps, r[i].uuid_spec())
            &&& forall|i: int|
                0 <= i < r.len() ==> from_probe(cs, (#[trigger] r[i]).uuid_spec(), r[i].ctap_handle())
                    && from_probe(ps, r[i].uuid_spec(), r[i].pcsc_handle())
            &&& forall|u: Uuid| probed(cs, u) || probed(ps, u) ==> #[trigger] covered(r, fails, u)
            &&& forall|j: int| 0 <= j < fails.len() ==> probed(cs, #[trigger] fails[j]) || probed(ps, fails[j])
            &&& forall|i: int, j: int| 0 <= i < r.len() && 0 <= j < fails.len() ==> r[i].uuid_spec() != fails[j]
        }),
{
    let r = kept(opened, outcomes);
    lemma_kept(opened, outcomes);
    assert forall|a: int, b: int| 0 <= a < b < opened.len() implies opened[a].uuid_spec()
        != opened[b].uuid_spec() by {
        assert(opened[a].uuid_spec() == all[a].uuid);
        assert(opened[b].uuid_spec() == all[b].uuid);
    }
    assert forall|i: int| 0 <= i < r.len() implies (#[trigger] r[i]).wf() && r[i].has_ctap()
        == probed(cs, r[i].uuid_spec()) && r[i].has_pcsc() == probed(ps, r[i].uuid_spec())
        && from_probe(cs, r[i].uuid_spec(), r[i].ctap_handle())
        && from_probe(ps, r[i].uuid_spec(), r[i].pcsc_handle()) by {
        let k = choose|k: int|
            0 <= k < opened.len() && (#[trigger] kept(opened, outcomes)[i]).uuid_spec()
                == opened[k].uuid_spec() && kept(opened, outcomes)[i].ctap_handle()
                == opened[k].ctap_handle() && kept(opened, outcomes)[i].pcsc_handle()
                == opened[k].pcsc_handle();
        assert(opened[k].uuid_spec() == all[k].uuid);
    }
    assert forall|u: Uuid| probed(cs, u) || probed(ps, u) implies #[trigger] covered(r, fails, u) by {
        let k = choose|k: int| 0 <= k < all.len() && all[k].uuid == u;
        if outcomes[k] is Ok {
            lemma_kept_complete(opened, outcomes, k);
            assert(opened[k].uuid_spec() == u);
        } else {
            assert(outcomes[k] is Err);
            assert(uuids[k] == u);
            assert(fails.contains(uuids[k]));
            assert(fails.contains(u));
        }
    }
    assert forall|j: int| 0 <= j < fails.len() implies probed(cs, #[trigger] fails[j]) || probed(ps, fails[j]) by {
        assert(is_failed(uuids, outcomes, fails[j]));
        let k = choose|k: int| 0 <= k < uuids.len() && k < outcomes.len() && uuids[k] == fails[j] && outcomes[k] is Err;
        assert(all[k].uuid == fails[j]);
    }
    assert forall|i: int, j: int| 0 <= i < r.len() && 0 <= j < fails.len() implies r[i].uuid_spec() != fails[j] by {
        lemma_kept_sound(opened, outcomes, i);
        let k = choose|k: int| 0 <= k < opened.len() && outcomes[k] is Ok && kept(opened, outcomes)[i].uuid_spec() == opened[k].uuid_spec();
        assert(is_failed(uuids, outcomes, fails[j]));
        let k2 = choose|k2: int| 0 <= k2 < uuids.len() && k2 < outcomes.len() && uuids[k2] == fails[j] && outcomes[k2] is Err;
        assert(opened[k].uuid_spec() == all[k].uuid);
        if k != k2 {
            assert(all[k].uuid != all[k2].uuid);
        }
    }
}

/// Builds logical devices from probed channels: one per distinct UUID,
/// combining the channels that reported it (see [`merge`]), each with its
/// firmware version read once through the administrative application
/// ([`Solo2::fetch_version`]); [`assemble`] keeps, in that order, the devices
/// whose version could be read. The second result lists the UUIDs whose
/// version could not be read: every probed UUID is in exactly one of the two.
#[verifier::rlimit(100)]
pub fn list_probed<C: Transport, P: Transport>(ctaps: Vec<(Uuid, C)>, pcscs: Vec<(Uuid, P)>) -> (r: (
    Vec<Solo2<C, P>>,
    Vec<Uuid>,
))
    ensures
        forall|i: int, j: int| 0 <= i < j < r.0@.len() ==> r.0@[i].uuid_spec() != r.0@[j].uuid_spec(),
        forall|i: int|
            0 <= i < r.0@.len() ==> (#[trigger] r.0@[i]).wf() && r.0@[i].has_ctap() == probed(
                ctaps@,
                r.0@[i].uuid_spec(),
            ) && r.0@[i].has_pcsc() == probed(pcscs@, r.0@[i].uuid_spec()),
        forall|i: int|
            0 <= i < r.0@.len() ==> from_probe(ctaps@, (#[trigger] r.0@[i]).uuid_spec(), r.0@[i].ctap_handle())
                && from_probe(pcscs@, r.0@[i].uuid_spec(), r.0@[i].pcsc_handle()),
        forall|u: Uuid| probed(ctaps@, u) || probed(pcscs@, u) ==> #[trigger] covered(r.0@, r.1@, u),
        forall|j: int| 0 <= j < r.1@.len() ==> probed(ctaps@, #[trigger] r.1@[j]) || probed(pcscs@, r.1@[j]),
        forall|i: int, j: int| 0 <= i < r.0@.len() && 0 <= j < r.1@.len() ==> r.0@[i].uuid_spec() != r.1@[j],
{
    let ghost cs = ctaps@;
    let ghost ps = pcscs@;
    let mut records = merge(ctaps, pcscs);
    let ghost all = records@;
    let mut devices: Vec<Solo2<C, P>> = Vec::new();
    let mut versions: Vec<Result<Version, Error>> = Vec::new();
    let mut uuids: Vec<Uuid> = Vec::new();
    let ghost mut n: int = 0;
    while records.len() > 0
        invariant
            0 <= n <= all.len(),
            records@ == all.skip(n),
            merged(cs, ps, all),
            devices@.len() == n,
            versions@.len() == n,
            uuids@.len() == n,
            forall|k: int| 0 <= k < n ==> uuids@[k] == all[k].uuid,
            forall|i: int|
                0 <= i < n ==> (#[trigger] devices@[i]).uuid_spec() == all[i].uuid && devices@[i].wf()
                    && devices@[i].has_ctap() == all[i].ctap is Some && devices@[i].has_pcsc()
                    == all[i].pcsc is Some && from_probe(cs, all[i].uuid, devices@[i].ctap_handle())
                    && from_probe(ps, all[i].uuid, devices@[i].pcsc_handle()),
        decreases records@.len(),
    {
        let record = records.remove(0);
        assert(all[n] == record) by {
            assert(all.skip(n)[0] == all[n]);
        }
        let initial = Version { major: 0, minor: 0, patch: 0 };
        let uuid = record.uuid;
        let ghost rc = record.ctap;
        let ghost rp = record.pcsc;
        let ghost ru = record.uuid;
        match Solo2::new(record.ctap, record.pcsc, record.uuid, initial) {
            Some(mut device) => {
                let version = device.fetch_version();
                proof {
                    if let Some(c) = rc {
                        let k = choose|k: int| 0 <= k < cs.len() && cs[k] == (ru, c);
                        assert(cs[k].0 == ru && log_extends(Some(cs[k].1), device.ctap_handle()));
                    }
                    if let Some(p) = rp {
                        let k = choose|k: int| 0 <= k < ps.len() && ps[k] == (ru, p);
                        assert(ps[k].0 == ru && log_extends(Some(ps[k].1), device.pcsc_handle()));
                    }
                }
                devices.push(device);
                versions.push(version);
                uuids.push(uuid);
            },
            None => {
                assert(false);
            },
        }
        proof {
            n = n + 1;
            assert(all.skip(n) =~= records@);
        }
    }
    let ghost opened = devices@;
    let ghost outcomes = versions@;
    let unreadable = failed_uuids(&uuids, &versions);
    let r = assemble(devices, versions);
    proof {
        assert(opened_from(cs, ps, all, opened));
        lemma_discovery(cs, ps, all, opened, outcomes, uuids@, unreadable@);
    }
    (r, unreadable)
}

/// The handle is the raw channel `raw` after a successful identity probe that
/// reported `uuid` (a SELECT of the administrative application, then the
/// get-UUID instruction whose reply carries `uuid`), its log only extended since.
pub open spec fn probe_reported<H: Transport>(raw: H, handle: H, uuid: Uuid) -> bool {
    let n = raw.log().len();
    let l = handle.log();
    &&& n + 2 <= l.len()
    &&& l.take(n as int) == raw.log()
    &&& l[n as int] matches Exchange::Select(a, s) && a == admin_aid() && s is Ok
    &&& l[n as int + 1] matches Exchange::Call(i, d, Ok(b)) && i == UUID_COMMAND && d == Seq::<u8>::empty()
        && uuid_of_reply(b) == Ok::<Uuid, Error>(uuid)
}

/// Whether some probe reported a UUID.
pub open spec fn reported(outcomes: Seq<Option<Uuid>>, uuid: Uuid) -> bool {
    exists|k: int| 0 <= k < outcomes.len() && outcomes[k] == Some(uuid)
}

/// The handle, if any, is one of the raw channels, whose probe reported `uuid`,
/// after that probe.
pub open spec fn probed_from<H: Transport>(raw: Seq<H>, outcomes: Seq<Option<Uuid>>, uuid: Uuid, handle: Option<H>) -> bool {
    handle matches Some(h) ==> exists|k: int|
        0 <= k < raw.len() && outcomes[k] == Some(uuid) && probe_reported(raw[k], h, uuid)
}

proof fn lemma_reported_extends<H: Transport>(raw: H, probed: H, h: H, uuid: Uuid)
    requires
        probe_reported(raw, probed, uuid),
        log_extends(Some(probed), Some(h)),
    ensures
        probe_reported(raw, h, uuid),
{
    let n = raw.log().len();
    assert(h.log().take(n as int) =~= probed.log().take(n as int));
    assert(h.log()[n as int] == probed.log()[n as int]);
    assert(h.log()[n as int + 1] == probed.log()[n as int + 1]);
}

/// Each found channel is one of the raw channels, whose probe reported its UUID,
/// after that probe.
pub open spec fn all_reported<H: Transport>(raw: Seq<H>, outcomes: Seq<Option<Uuid>>, found: Seq<(Uuid, H)>) -> bool {
    forall|j: int| 0 <= j < found.len() ==> #[trigger] reported_by(raw, outcomes, found[j])
}

/// The channel is one of the raw channels, whose probe reported its UUID, after that probe.
pub open spec fn reported_by<H: Transport>(raw: Seq<H>, outcomes: Seq<Option<Uuid>>, f: (Uuid, H)) -> bool {
    exists|k: int|
        0 <= k < raw.len() && k < outcomes.len() && outcomes[k] == Some(f.0) && probe_reported(raw[k], f.1, f.0)
}

/// Probes raw channels: the outcome of each probe, in order, and the channels
/// whose probe reported a UUID, with that UUID.
fn probe_all<H: Transport>(channels: Vec<H>) -> (r: (Vec<Option<Uuid>>, Vec<(Uuid, H)>))
    ensures
        r.0@.len() == channels@.len(),
        forall|u: Uuid| probed(r.1@, u) <==> reported(r.0@, u),
        all_reported(channels@, r.0@, r.1@),
{
    let ghost all = channels@;
    let mut raw = channels;
    let mut outcomes: Vec<Option<Uuid>> = Vec::new();
    let mut found: Vec<(Uuid, H)> = Vec::new();
    let ghost mut n: int = 0;
    while raw.len() > 0
        invariant
            0 <= n <= all.len(),
            raw@ == all.skip(n),
            outcomes@.len() == n,
            forall|u: Uuid| probed(found@, u) <==> reported(outcomes@, u),
            all_reported(all, outcomes@, found@),
        decreases raw@.len(),
    {
        let mut device = raw.remove(0);
        assert(all.skip(n)[0] == all[n]);
        let ghost before = device;
        let outcome = probe_identity(&mut device);
        let ghost old_found = found@;
        let ghost old_outcomes = outcomes@;
        outcomes.push(outcome);
        proof {
            assert forall|f: (Uuid, H)| reported_by(all, old_outcomes, f) implies reported_by(all, outcomes@, f) by {
                let k = choose|k: int| 0 <= k < all.len() && k < old_outcomes.len() && old_outcomes[k] == Some(f.0)
                    && probe_reported(all[k], f.1, f.0);
                assert(outcomes@[k] == old_outcomes[k]);
            }
            assert forall|u: Uuid| reported(outcomes@, u) <==> (reported(old_outcomes, u) || outcome == Some(u)) by {
                if reported(outcomes@, u) {
                    let k = choose|k: int| 0 <= k < outcomes@.len() && outcomes@[k] == Some(u);
                    if k < n {
                        assert(old_outcomes[k] == outcomes@[k]);
                    }
                }
                if reported(old_outcomes, u) {
                    let k = choose|k: int| 0 <= k < old_outcomes.len() && old_outcomes[k] == Some(u);
                    assert(outcomes@[k] == old_outcomes[k]);
                }
                if outcome == Some(u) {
                    assert(outcomes@[n] == Some(u));
                }
            }
        }
        if let Some(uuid) = outcome {
            proof {
                let l = device.log();
                let m = before.log().len();
                assert(l.take(m as int) == before.log());
                assert(probe_reported(all[n], device, uuid));
                assert(outcomes@[n] == Some(uuid));
                assert(reported_by(all, outcomes@, (uuid, device)));
            }
            found.push((uuid, device));
            proof {
                assert forall|j: int| 0 <= j < found@.len() implies #[trigger] reported_by(all, outcomes@, found@[j]) by {
                    if j < old_found.len() {
                        assert(found@[j] == old_found[j]);
                        assert(reported_by(all, old_outcomes, old_found[j]));
                    }
                }
                assert forall|u: Uuid| probed(found@, u) <==> (probed(old_found, u) || u == uuid) by {
                    if probed(found@, u) {
                        let j = choose|j: int| 0 <= j < found@.len() && (#[trigger] found@[j]).0 == u;
                        if j < old_found.len() {
                            assert(old_found[j] == found@[j]);
                        }
                    }
                    if probed(old_found, u) {
                        let j = choose|j: int| 0 <= j < old_found.len() && (#[trigger] old_found[j]).0 == u;
                        assert(found@[j] == old_found[j]);
                    }
                    if u == uuid {
                        assert(found@[found@.len() - 1].0 == u);
                    }
                }
            }
        } else {
            proof {
                assert forall|j: int| 0 <= j < found@.len() implies #[trigger] reported_by(all, outcomes@, found@[j]) by {
                    assert(reported_by(all, old_outcomes, found@[j]));
                }
            }
        }
        proof {
            assert forall|u: Uuid| probed(found@, u) <==> reported(outcomes@, u) by {
                assert(probed(old_found, u) <==> reported(old_outcomes, u));
            }
            n = n + 1;
            assert(all.skip(n) =~= raw@);
        }
    }
    (outcomes, found)
}

/// The outcome of discovery.
pub struct Discovery<C, P> {
    /// One logical device per distinct UUID whose version could be read.
    pub devices: Vec<Solo2<C, P>>,
    /// For each CTAPHID channel, in order, the UUID its probe reported.
    pub ctap_probes: Vec<Option<Uuid>>,
    /// For each smartcard channel, in order, the UUID its probe reported.
    pub pcsc_probes: Vec<Option<Uuid>>,
    /// UUIDs that a probe reported but whose firmware version could not be read.
    pub unreadable: Vec<Uuid>,
}

/// Discovers logical devices among raw channels: probes each channel for its
/// identity ([`probe_identity`]), drops those that do not answer as this
/// device family, and merges the rest by UUID (see [`list_probed`]). Every
/// reported UUID yields exactly one device, unless its version could not be
/// read (then it is listed as unreadable); a device has a CTAPHID (smartcard)
/// handle exactly when a CTAPHID (smartcard) probe reported its UUID, and each
/// handle is a raw channel whose own probe reported it.
pub fn list<C: Transport, P: Transport>(ctaps: Vec<C>, pcscs: Vec<P>) -> (r: Discovery<C, P>)
    ensures
        r.ctap_probes@.len() == ctaps@.len(),
        r.pcsc_probes@.len() == pcscs@.len(),
        forall|i: int, j: int|
            0 <= i < j < r.devices@.len() ==> r.devices@[i].uuid_spec() != r.devices@[j].uuid_spec(),
        forall|i: int|
            0 <= i < r.devices@.len() ==> (#[trigger] r.devices@[i]).wf() && r.devices@[i].has_ctap()
                == reported(r.ctap_probes@, r.devices@[i].uuid_spec()) && r.devices@[i].has_pcsc()
                == reported(r.pcsc_probes@, r.devices@[i].uuid_spec()),
        forall|u: Uuid|
            reported(r.ctap_probes@, u) || reported(r.pcsc_probes@, u) ==> #[trigger] covered(
                r.devices@,
                r.unreadable@,
                u,
            ),
        forall|j: int|
            0 <= j < r.unreadable@.len() ==> reported(r.ctap_probes@, #[trigger] r.unreadable@[j])
                || reported(r.pcsc_probes@, r.unreadable@[j]),
        forall|i: int, j: int|
            0 <= i < r.devices@.len() && 0 <= j < r.unreadable@.len() ==> r.devices@[i].uuid_spec()
                != r.unreadable@[j],
        forall|i: int|
            0 <= i < r.devices@.len() ==> probed_from(
                ctaps@,
                r.ctap_probes@,
                (#[trigger] r.devices@[i]).uuid_spec(),
                r.devices@[i].ctap_handle(),
            ) && probed_from(pcscs@, r.pcsc_probes@, r.devices@[i].uuid_spec(), r.devices@[i].pcsc_handle()),
{
    let ghost raw_c = ctaps@;
    let ghost raw_p = pcscs@;
    let (ctap_probes, probed_ctaps) = probe_all(ctaps);
    let (pcsc_probes, probed_pcscs) = probe_all(pcscs);
    let ghost pc = probed_ctaps@;
    let ghost pp = probed_pcscs@;
    let (devices, unreadable) = list_probed(probed_ctaps, probed_pcscs);
    proof {
        assert forall|i: int| 0 <= i < devices@.len() implies probed_from(raw_c, ctap_probes@, (#[trigger] devices@[i]).uuid_spec(), devices@[i].ctap_handle())
            && probed_from(raw_p, pcsc_probes@, devices@[i].uuid_spec(), devices@[i].pcsc_handle()) by {
            let u = devices@[i].uuid_spec();
            assert(from_probe(pc, u, devices@[i].ctap_handle()));
            assert(from_probe(pp, u, devices@[i].pcsc_handle()));
            if let Some(h) = devices@[i].ctap_handle() {
                let j = choose|j: int| 0 <= j < pc.len() && pc[j].0 == u && log_extends(Some(pc[j].1), Some(h));
                assert(reported_by(raw_c, ctap_probes@, pc[j]));
                let k = choose|k: int| 0 <= k < raw_c.len() && k < ctap_probes@.len() && ctap_probes@[k] == Some(pc[j].0)
                    && probe_reported(raw_c[k], pc[j].1, pc[j].0);
                lemma_reported_extends(raw_c[k], pc[j].1, h, u);
            }
            if let Some(h) = devices@[i].pcsc_handle() {
                let j = choose|j: int| 0 <= j < pp.len() && pp[j].0 == u && log_extends(Some(pp[j].1), Some(h));
                assert(reported_by(raw_p, pcsc_probes@, pp[j]));
                let k = choose|k: int| 0 <= k < raw_p.len() && k < pcsc_probes@.len() && pcsc_probes@[k] == Some(pp[j].0)
                    && probe_reported(raw_p[k], pp[j].1, pp[j].0);
                lemma_reported_extends(raw_p[k], pp[j].1, h, u);
            }
        }
    }
    proof {
        assert forall|u: Uuid| reported(ctap_probes@, u) || reported(pcsc_probes@, u) implies #[trigger] covered(
            devices@,
            unreadable@,
            u,
        ) by {
            assert(probed(pc, u) || probed(pp, u));
        }
        assert forall|i: int| 0 <= i < devices@.len() implies (#[trigger] devices@[i]).wf() && devices@[i].has_ctap()
            == reported(ctap_probes@, devices@[i].uuid_spec()) && devices@[i].has_pcsc()
            == reported(pcsc_probes@, devices@[i].uuid_spec()) by {
            let u = devices@[i].uuid_spec();
            assert(probed(pc, u) == reported(ctap_probes@, u));
            assert(probed(pp, u) == reported(pcsc_probes@, u));
        }
        assert forall|j: int| 0 <= j < unreadable@.len() implies reported(ctap_probes@, #[trigger] unreadable@[j])
            || reported(pcsc_probes@, unreadable@[j]) by {
            let u = unreadable@[j];
            assert(probed(pc, u) == reported(ctap_probes@, u));
            assert(probed(pp, u) == reported(pcsc_probes@, u));
        }
    }
    Discovery { devices, ctap_probes, pcsc_probes, unreadable }
}

/// How many devices carry a UUID.
pub open spec fn count_uuid<D: Identified>(s: Seq<D>, uuid: Uuid) -> nat
    decreases s.len(),
{
    if s.len() == 0 {
        0
    } else {
        count_uuid(s.drop_last(), uuid) + if s.last().uuid_spec() == uuid {
            1nat
        } else {
            0nat
        }
    }
}

/// The one device with a UUID: fails with [`Error::NoSuchDevice`] when none has
/// it and with [`Error::IdentityAmbiguous`] (and their number) when several do.
pub fn having<D: Identified>(devices: Vec<D>, uuid: Uuid) -> (r: Result<D, Error>)
    ensures
        count_uuid(devices@, uuid) == 0 ==> r == Err::<D, Error>(Error::NoSuchDevice),
        count_uuid(devices@, uuid) == 1 ==> (r matches Ok(d) && d.uuid_spec() == uuid && exists|k: int|
            0 <= k < devices@.len() && devices@[k] == d),
        count_uuid(devices@, uuid) > 1 ==> r == Err::<D, Error>(
            Error::IdentityAmbiguous(count_uuid(devices@, uuid) as usize),
        ),
{
    let mut count: usize = 0;
    let mut first: usize = 0;
    let mut i: usize = 0;
    while i < devices.len()
        invariant
            i <= devices@.len(),
            count as nat == count_uuid(devices@.take(i as int), uuid),
            count <= i,
            count > 0 ==> first < i && devices@[first as int].uuid_spec() == uuid,
        decreases devices@.len() - i,
    {
        assert(devices@.take(i + 1).drop_last() =~= devices@.take(i as int));
        if devices[i].uuid() == uuid {
            if count == 0 {
                first = i;
            }
            count = count + 1;
        }
        i = i + 1;
    }
    assert(devices@.take(i as int) =~= devices@);
    if count == 0 {
        Err(Error::NoSuchDevice)
    } else if count == 1 {
        let mut devices = devices;
        let ghost all = devices@;
        let d = devices.remove(first);
        Ok(d)
    } else {
        Err(Error::IdentityAmbiguous(count))
    }
}

/// How a request for devices resolves.
pub enum Resolution<D> {
    /// These devices, without asking.
    Resolved(Vec<D>),
    /// Several candidates: the operator picks one (see [`pick`]).
    Choose(Vec<D>),
}

/// Resolves a request for devices: with a UUID, the one candidate that has it
/// (see [`having`]); with `all`, every candidate; otherwise the only
/// candidate, or the candidates for the operator to choose from. Without a
/// UUID or `all`, an empty list is [`Error::NoSuchDevice`].
pub fn resolve<D: Identified>(candidates: Vec<D>, uuid: Option<Uuid>, all: bool) -> (r: Result<
    Resolution<D>,
    Error,
>)
    ensures
        uuid matches Some(u) ==> {
            &&& count_uuid(candidates@, u) == 0 ==> r == Err::<Resolution<D>, Error>(Error::NoSuchDevice)
            &&& count_uuid(candidates@, u) == 1 ==> (r matches Ok(Resolution::Resolved(v)) && v@.len() == 1
                && v@[0].uuid_spec() == u && exists|k: int| 0 <= k < candidates@.len() && candidates@[k] == v@[0])
            &&& count_uuid(candidates@, u) > 1 ==> r == Err::<Resolution<D>, Error>(
                Error::IdentityAmbiguous(count_uuid(candidates@, u) as usize),
            )
        },
        uuid is None && all ==> (r matches Ok(Resolution::Resolved(v)) && v@ == candidates@),
        uuid is None && !all && candidates@.len() == 0 ==> r == Err::<Resolution<D>, Error>(Error::NoSuchDevice),
        uuid is None && !all && candidates@.len() == 1 ==> (r matches Ok(Resolution::Resolved(v)) && v@ == candidates@),
        uuid is None && !all && candidates@.len() > 1 ==> (r matches Ok(Resolution::Choose(v)) && v@ == candidates@),
{
    match uuid {
        Some(u) => match having(candidates, u) {
            Ok(d) => {
                let mut v: Vec<D> = Vec::new();
                v.push(d);
                Ok(Resolution::Resolved(v))
            },
            Err(e) => Err(e),
        },
        None => if all {
            Ok(Resolution::Resolved(candidates))
        } else if candidates.len() == 0 {
            Err(Error::NoSuchDevice)
        } else if candidates.len() == 1 {
            Ok(Resolution::Resolved(candidates))
        } else {
            Ok(Resolution::Choose(candidates))
        },
    }
}

/// The candidate the operator chose: cancelling is [`Error::UserAborted`], an
/// index out of range [`Error::InvalidInput`].
pub fn pick<D>(candidates: Vec<D>, choice: Option<usize>) -> (r: Result<D, Error>)
    ensures
        choice is None ==> r == Err::<D, Error>(Error::UserAborted),
        choice matches Some(i) ==> (i < candidates@.len() ==> r == Ok::<D, Error>(candidates@[i as int])),
        choice matches Some(i) ==> (i >= candidates@.len() ==> r == Err::<D, Error>(Error::InvalidInput)),
{
    match choice {
        None => Err(Error::UserAborted),
        Some(i) => if i < candidates.len() {
            let mut candidates = candidates;
            Ok(candidates.remove(i))
        } else {
            Err(Error::InvalidInput)
        },
    }
}

/// A device in regular mode, or in its update bootloader (`B`), where it is
/// known only by its UUID.
pub enum Device<B, C, P> {
    Lpc55 { uuid: Uuid, bootloader: B },
    Solo2(Solo2<C, P>),
}

impl<B, C, P> Identified for Device<B, C, P> {
    open spec fn uuid_spec(&self) -> Uuid {
        match self {
            Device::Lpc55 { uuid, .. } => *uuid,
            Device::Solo2(s) => s.uuid_spec(),
        }
    }

    fn uuid(&self) -> (r: Uuid) {
        match self {
            Device::Lpc55 { uuid, .. } => *uuid,
            Device::Solo2(s) => s.uuid(),
        }
    }
}

} // verus!
