//! The encryptor that a node seals outbound payloads with and opens inbound
//! ones with.

use vstd::prelude::*;
use crate::error::Error;
use crate::packet::{ZCPacket, ZCPacketView};

verus! {

/// A cipher over packets, working in place. What an implementation leaves
/// in the packet and when it fails is its own affair: `seals` and `opens`
/// say what it admits, and admit everything unless the implementation says
/// otherwise.
pub trait Encryptor: Send + Sync {
    /// Whether sealing `before` may leave `after` and answer `answer`.
    open spec fn seals(
        &self,
        before: ZCPacketView,
        after: ZCPacketView,
        answer: Result<(), Error>,
    ) -> bool {
        true
    }

    /// Whether opening `before` may leave `after` and answer `answer`.
    open spec fn opens(
        &self,
        before: ZCPacketView,
        after: ZCPacketView,
        answer: Result<(), Error>,
    ) -> bool {
        true
    }

    fn encrypt(&self, zc_packet: &mut ZCPacket) -> (r: Result<(), Error>)
        ensures
            self.seals(old(zc_packet)@, final(zc_packet)@, r),
    ;

    fn decrypt(&self, zc_packet: &mut ZCPacket) -> (r: Result<(), Error>)
        ensures
            self.opens(old(zc_packet)@, final(zc_packet)@, r),
    ;
}

/// The encryptor of a node that does not encrypt: it leaves every packet as
/// it is and never fails.
#[derive(Clone, Copy, Debug)]
pub struct NullCipher;

impl Encryptor for NullCipher {
    open spec fn seals(
        &self,
        before: ZCPacketView,
        after: ZCPacketView,
        answer: Result<(), Error>,
    ) -> bool {
        after == before && answer == Ok::<(), Error>(())
    }

    open spec fn opens(
        &self,
        before: ZCPacketView,
        after: ZCPacketView,
        answer: Result<(), Error>,
    ) -> bool {
        after == before && answer == Ok::<(), Error>(())
    }

    fn encrypt(&self, zc_packet: &mut ZCPacket) -> (r: Result<(), Error>)
        ensures
            r is Ok,
            *final(zc_packet) == *old(zc_packet),
    {
        Ok(())
    }

    fn decrypt(&self, zc_packet: &mut ZCPacket) -> (r: Result<(), Error>)
        ensures
            r is Ok,
            *final(zc_packet) == *old(zc_packet),
    {
        Ok(())
    }
}

/// The place of a node's cipher.
pub struct CipherSlot {
    pub cipher: Box<dyn Encryptor>,
}

impl CipherSlot {
    pub fn new(cipher: Box<dyn Encryptor>) -> (slot: CipherSlot)
        ensures
            slot == (CipherSlot { cipher }),
    {
        CipherSlot { cipher }
    }
}

/// What a node reports after its cipher answered `answer` to the sealing
/// of a frame: success as it is, and any failure as `EncryptFailed`.
pub open spec fn spec_seal_report(answer: Result<(), Error>) -> Result<(), Error> {
    match answer {
        Ok(_) => Ok(()),
        Err(_) => Err(Error::EncryptFailed),
    }
}

/// Turns the answer of a cipher to the sealing of a frame into what the
/// node reports to the sender.
pub fn seal_report(answer: Result<(), Error>) -> (r: Result<(), Error>)
    ensures
        r == spec_seal_report(answer),
{
    match answer {
        Ok(_) => Ok(()),
        Err(_) => Err(Error::EncryptFailed),
    }
}

} // verus!
