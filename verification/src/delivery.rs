//! The delivery session: hands finished messages to the delivery service.

use crate::error::{Error, ErrorView};
use crate::folder::msgs_view;
use crate::msg::{Account, Msg, MsgView};
use vstd::prelude::*;

verus! {

/// The mathematical value of a [`DeliverySession`].
pub ghost struct DeliveryView {
    pub login: Seq<char>,
    pub secret: Seq<char>,
    pub connected: bool,
    pub accepted: Seq<MsgView>,
}

/// A delivery session: the login that the service accepts, whether the
/// connection is open, and the messages that the service has accepted,
/// oldest first.
#[derive(Debug)]
pub struct DeliverySession {
    login: String,
    secret: String,
    connected: bool,
    accepted: Vec<Msg>,
}

impl View for DeliverySession {
    type V = DeliveryView;

    closed spec fn view(&self) -> DeliveryView {
        DeliveryView {
            login: self.login@,
            secret: self.secret@,
            connected: self.connected,
            accepted: msgs_view(self.accepted@),
        }
    }
}

/// The message names at least one recipient.
pub open spec fn has_recipient(m: MsgView) -> bool {
    m.to.len() + m.cc.len() + m.bcc.len() > 0
}

/// The session after a send with this login.
///
/// A session that is not connected connects first, and the send fails
/// where the service refuses the login. On an open connection a message
/// without recipients is refused; any other message is accepted.
pub open spec fn send_outcome(
    s: DeliveryView,
    login: Seq<char>,
    secret: Seq<char>,
    msg: MsgView,
) -> Result<DeliveryView, DeliveryView> {
    if !s.connected && !(login == s.login && secret == s.secret) {
        Err(s)
    } else if !has_recipient(msg) {
        Err(DeliveryView { connected: true, ..s })
    } else {
        Ok(DeliveryView { connected: true, accepted: s.accepted.push(msg), ..s })
    }
}

impl DeliverySession {
    /// A session, not yet connected, with a service that accepts this
    /// login.
    pub fn new(login: &str, secret: &str) -> (r: DeliverySession)
        ensures
            r@ == (DeliveryView {
                login: login@,
                secret: secret@,
                connected: false,
                accepted: Seq::empty(),
            }),
    {
        let r = DeliverySession {
            login: String::from_str(login),
            secret: String::from_str(secret),
            connected: false,
            accepted: Vec::new(),
        };
        assert(r@.accepted =~= Seq::empty());
        r
    }

    /// Whether the connection is open.
    pub fn is_connected(&self) -> (b: bool)
        ensures
            b == self@.connected,
    {
        self.connected
    }

    /// The messages that the service has accepted, oldest first.
    pub fn accepted(&self) -> (r: &Vec<Msg>)
        ensures
            msgs_view(r@) == self@.accepted,
    {
        &self.accepted
    }

    /// Sends a message under the account's delivery login.
    ///
    /// The first send opens the connection. A refused login or a message
    /// without recipients fails with `Delivery`; nothing is retried.
    pub fn send(&mut self, account: &Account, msg: &Msg) -> (r: Result<(), Error>)
        ensures
            match send_outcome(
                old(self)@,
                account.delivery.login@,
                account.delivery.secret@,
                msg@,
            ) {
                Ok(s) => r is Ok && final(self)@ == s,
                Err(s) => r is Err && r->Err_0@ == ErrorView::Delivery && final(self)@ == s,
            },
    {
        if !self.connected {
            if !(account.delivery.login == self.login && account.delivery.secret == self.secret) {
                return Err(Error::Delivery);
            }
            self.connected = true;
        }
        if msg.to.len() == 0 && msg.cc.len() == 0 && msg.bcc.len() == 0 {
            return Err(Error::Delivery);
        }
        let ghost before = self.accepted@;
        self.accepted.push(msg.clone());
        assert(msgs_view(self.accepted@) =~= msgs_view(before).push(msg@));
        Ok(())
    }

    /// Closes the connection. Closing a closed connection changes nothing.
    pub fn disconnect(&mut self)
        ensures
            final(self)@ == (DeliveryView { connected: false, ..old(self)@ }),
    {
        self.connected = false;
    }
}

} // verus!
