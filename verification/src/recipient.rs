//! Who is to receive released value: a plain address, or a component that
//! the host has to look up and that takes a message with the value.

use vstd::prelude::*;
use vstd::string::*;

verus! {

/// A name that the host resolves to an address.
#[derive(Debug, PartialEq, Eq)]
pub struct AndrAddress {
    pub identifier: String,
}

impl Clone for AndrAddress {
    fn clone(&self) -> (r: Self)
        ensures
            r.identifier@ == self.identifier@,
    {
        AndrAddress { identifier: self.identifier.clone() }
    }
}

/// A component as recipient: its name, and the message it is handed with
/// the value.
#[derive(Debug, PartialEq, Eq)]
pub struct ADORecipient {
    pub address: AndrAddress,
    pub msg: Option<Vec<u8>>,
}

/// The recipient of an escrow, as the depositor named it.
#[derive(Debug, PartialEq, Eq)]
pub enum Recipient {
    Addr(String),
    ADO(ADORecipient),
}

/// A recipient as a mathematical value.
pub enum RecipientView {
    Addr(Seq<char>),
    ADO { identifier: Seq<char>, msg: Option<Seq<u8>> },
}

impl View for Recipient {
    type V = RecipientView;

    open spec fn view(&self) -> RecipientView {
        match self {
            Recipient::Addr(a) => RecipientView::Addr(a@),
            Recipient::ADO(r) => RecipientView::ADO {
                identifier: r.address.identifier@,
                msg: match r.msg {
                    Some(m) => Some(m@),
                    None => None,
                },
            },
        }
    }
}

fn clone_bytes(bytes: &Vec<u8>) -> (r: Vec<u8>)
    ensures
        r@ == bytes@,
{
    let mut out: Vec<u8> = Vec::new();
    let mut i: usize = 0;
    while i < bytes.len()
        invariant
            i <= bytes.len(),
            out@ == bytes@.take(i as int),
        decreases bytes.len() - i,
    {
        out.push(bytes[i]);
        assert(bytes@.take(i + 1) =~= bytes@.take(i as int).push(bytes@[i as int]));
        i += 1;
    }
    assert(bytes@.take(i as int) =~= bytes@);
    out
}

impl Clone for Recipient {
    fn clone(&self) -> (r: Self)
        ensures
            r@ == self@,
    {
        match self {
            Recipient::Addr(a) => Recipient::Addr(a.clone()),
            Recipient::ADO(r) => Recipient::ADO(
                ADORecipient {
                    address: r.address.clone(),
                    msg: match &r.msg {
                        Some(m) => Some(clone_bytes(m)),
                        None => None,
                    },
                },
            ),
        }
    }
}

impl Recipient {
    /// The recipient that is the plain address `addr`.
    pub fn from_string(addr: String) -> (r: Recipient)
        ensures
            r@ == RecipientView::Addr(addr@),
    {
        Recipient::Addr(addr)
    }
}

/// The recipient of a deposit: the one that was named, or the depositor.
pub fn recipient_or_sender(recipient: Option<Recipient>, sender: &str) -> (r: Recipient)
    ensures
        r@ == recipient_or(recipient, sender@),
{
    match recipient {
        Some(rec) => rec,
        None => Recipient::Addr(sender.to_owned()),
    }
}

/// The recipient of a deposit: the one that was named, or the depositor.
pub open spec fn recipient_or(recipient: Option<Recipient>, sender: Seq<char>) -> RecipientView {
    match recipient {
        Some(rec) => rec@,
        None => RecipientView::Addr(sender),
    }
}

} // verus!
