//! The PIV application: only its selection is offered here.
use vstd::prelude::*;

use crate::apps::{concat_aid, Pix, Rid, Select};
use crate::error::Error;
use crate::transport::{Exchange, Transport};

verus! {

/// The PIV application over a transport.
pub struct App<T> {
    transport: T,
}

impl<T> Select for App<T> {
    open spec fn aid_spec() -> Seq<u8> {
        seq![0xA0u8, 0x00u8, 0x00u8, 0x03u8, 0x08u8, 0x00u8, 0x00u8, 0x10u8, 0x00u8]
    }

    fn application_id() -> (r: Vec<u8>) {
        let r = concat_aid(&Rid::NIST, &Pix::PIV);
        assert(r@ =~= Self::aid_spec());
        r
    }
}

impl<T: Transport> App<T> {
    /// The transport the application runs on.
    pub closed spec fn transport_spec(&self) -> T {
        self.transport
    }

    /// Selects the application on the transport: a SELECT of its identifier.
    pub fn select(transport: T) -> (r: Result<App<T>, Error>)
        ensures
            r matches Ok(app) ==> app.transport_spec().log() == transport.log().push(
                Exchange::Select(Self::aid_spec(), Ok(())),
            ),
    {
        let mut transport = transport;
        let aid = <App<T> as Select>::application_id();
        let selected = transport.select(aid);
        match selected {
            Ok(u) => {
                assert(selected == Ok::<(), Error>(()));
                let app = App { transport };
                assert(app.transport_spec() == transport);
                Ok(app)
            },
            Err(e) => Err(e),
        }
    }

    /// Gives the transport back.
    pub fn into_inner(self) -> (r: T)
        ensures
            r == self.transport_spec(),
    {
        self.transport
    }
}

} // verus!
