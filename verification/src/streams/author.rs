//! The author of the channel: what it is once announced, how it admits a
//! subscriber, and how it sorts what the channel delivers.
//!
//! Only the transport talks to the ledger. The author decides what the
//! transport is asked next and what follows from its answer; whoever holds the
//! transport makes the call and brings the answer back.

use crate::models::{Annotation, Reading};
use vstd::prelude::*;

verus! {

/// The link of a message: the channel it is in and its identifier there, both
/// as the transport writes them.
#[derive(Debug)]
pub struct Address {
    pub appinst: String,
    pub msgid: String,
}

impl View for Address {
    type V = (Seq<char>, Seq<char>);

    open spec fn view(&self) -> (Seq<char>, Seq<char>) {
        (self.appinst@, self.msgid@)
    }
}

impl Clone for Address {
    fn clone(&self) -> (copy: Self)
        ensures
            copy == *self,
    {
        Address { appinst: self.appinst.clone(), msgid: self.msgid.clone() }
    }
}

/// A call that the transport could not carry out, with its reason.
#[derive(Debug)]
pub struct TransportError {
    pub reason: String,
}

impl View for TransportError {
    type V = Seq<char>;

    open spec fn view(&self) -> Seq<char> {
        self.reason@
    }
}

/// Why the author could not do what it was asked.
#[derive(Debug)]
pub enum AuthorError {
    /// The link, given here, does not name a message of the channel.
    MalformedLink(String),
    /// The bytes given as the subscriber's public key are no public key.
    InvalidKey,
    /// The transport failed.
    Transport(TransportError),
}

/// What an error of the author says.
pub enum Failure {
    MalformedLink(Seq<char>),
    InvalidKey,
    Transport(Seq<char>),
}

impl View for AuthorError {
    type V = Failure;

    open spec fn view(&self) -> Failure {
        match self {
            AuthorError::MalformedLink(link) => Failure::MalformedLink(link@),
            AuthorError::InvalidKey => Failure::InvalidKey,
            AuthorError::Transport(error) => Failure::Transport(error@),
        }
    }
}

impl AuthorError {
    /// The error in words.
    pub open spec fn message_text(&self) -> Seq<char> {
        match self {
            AuthorError::MalformedLink(link) => "Error getting msgid from provided link: "@ + link@,
            AuthorError::InvalidKey => "Invalid public key"@,
            AuthorError::Transport(error) => error@,
        }
    }

    /// The error in words.
    pub fn message(&self) -> (text: String)
        ensures
            text@ == self.message_text(),
    {
        match self {
            AuthorError::MalformedLink(link) => String::from_str(
                "Error getting msgid from provided link: ",
            ).concat(link.as_str()),
            AuthorError::InvalidKey => String::from_str("Invalid public key"),
            AuthorError::Transport(error) => error.reason.clone(),
        }
    }
}

/// An admission that waits for the transport to read the subscriber's link.
#[derive(Debug)]
pub struct PendingLink {
    link: String,
    pk: Vec<u8>,
}

/// An admission that waits for the transport to say whether the bytes given
/// as the subscriber's public key are one.
#[derive(Debug)]
pub struct PendingKey {
    msgid: String,
    pk: Vec<u8>,
}

/// An admission that waits for the transport to take in the subscriber's handshake.
#[derive(Debug)]
pub struct PendingHandshake {
    address: Address,
    pk: Vec<u8>,
}

/// An admission that waits for the transport to issue the keyload: a message
/// linked to the announcement, without pre-shared keys, for the one public key.
#[derive(Debug)]
pub struct PendingKeyload {
    announcement: Address,
    pk: Vec<u8>,
}

impl View for PendingLink {
    type V = (Seq<char>, Seq<u8>);

    closed spec fn view(&self) -> (Seq<char>, Seq<u8>) {
        (self.link@, self.pk@)
    }
}

impl View for PendingKey {
    type V = (Seq<char>, Seq<u8>);

    closed spec fn view(&self) -> (Seq<char>, Seq<u8>) {
        (self.msgid@, self.pk@)
    }
}

impl View for PendingHandshake {
    type V = ((Seq<char>, Seq<char>), Seq<u8>);

    closed spec fn view(&self) -> ((Seq<char>, Seq<char>), Seq<u8>) {
        (self.address@, self.pk@)
    }
}

impl View for PendingKeyload {
    type V = ((Seq<char>, Seq<char>), Seq<u8>);

    closed spec fn view(&self) -> ((Seq<char>, Seq<char>), Seq<u8>) {
        (self.announcement@, self.pk@)
    }
}

impl PendingLink {
    /// The link that the transport is to read.
    pub fn link(&self) -> (link: &str)
        ensures
            link@ == self@.0,
    {
        self.link.as_str()
    }
}

impl PendingKey {
    /// The bytes that the transport is to judge.
    pub fn pk(&self) -> (pk: &Vec<u8>)
        ensures
            pk@ == self@.1,
    {
        &self.pk
    }
}

impl PendingHandshake {
    /// The link of the handshake that the transport is to take in.
    pub fn address(&self) -> (address: &Address)
        ensures
            address@ == self@.0,
    {
        &self.address
    }
}

impl PendingKeyload {
    /// The announcement to which the keyload is linked.
    pub fn announcement(&self) -> (announcement: &Address)
        ensures
            announcement@ == self@.0,
    {
        &self.announcement
    }

    /// The public key that the keyload admits.
    pub fn pk(&self) -> (pk: &Vec<u8>)
        ensures
            pk@ == self@.1,
    {
        &self.pk
    }
}

/// What the masked payload of a signed packet turned out to be: read as a
/// reading, and read as an annotation. Either is `None` where the payload
/// does not have that shape.
#[derive(Debug)]
pub struct Decoded {
    pub reading: Option<Reading>,
    pub annotation: Option<Annotation>,
}

/// A message that the channel delivered.
#[derive(Debug)]
pub enum Fetched {
    /// A signed data packet.
    SignedPacket(Decoded),
    /// A message of any other type.
    Unsupported,
}

/// Why a delivered message was passed over.
#[derive(Debug, Clone, Copy, PartialEq, Eq, Structural)]
pub enum Dropped {
    /// A signed packet that is neither a reading nor an annotation.
    Undecodable,
    /// No signed data packet.
    Unsupported,
}

impl Dropped {
    /// The warning that is due.
    pub open spec fn message_text(&self) -> Seq<char> {
        match self {
            Dropped::Undecodable => "Error deserializing message"@,
            Dropped::Unsupported => "Message type not supported"@,
        }
    }

    /// The warning to log.
    pub fn message(&self) -> (text: &'static str)
        ensures
            text@ == self.message_text(),
    {
        match self {
            Dropped::Undecodable => "Error deserializing message",
            Dropped::Unsupported => "Message type not supported",
        }
    }
}

/// A message sorted into its kind: a reading in the first place, or else an
/// annotation in the second.
pub type Sorted = (Option<Reading>, Option<Annotation>);

/// How one delivered message is sorted. A signed packet that reads as a
/// reading is a reading, whatever else it reads as; one that does not, and
/// reads as an annotation, is an annotation.
pub open spec fn sorted(message: Fetched) -> Result<Sorted, Dropped> {
    match message {
        Fetched::SignedPacket(decoded) => match decoded.reading {
            Some(reading) => Ok((Some(reading), None)),
            None => match decoded.annotation {
                Some(annotation) => Ok((None, Some(annotation))),
                None => Err(Dropped::Undecodable),
            },
        },
        Fetched::Unsupported => Err(Dropped::Unsupported),
    }
}

/// The messages of `messages` that are readings or annotations, sorted, in their order.
pub open spec fn kept(messages: Seq<Fetched>) -> Seq<Sorted>
    decreases messages.len(),
{
    if messages.len() == 0 {
        Seq::empty()
    } else {
        match sorted(messages.last()) {
            Ok(message) => kept(messages.drop_last()).push(message),
            Err(_) => kept(messages.drop_last()),
        }
    }
}

/// Why each message of `messages` that is passed over is, in their order.
pub open spec fn passed_over(messages: Seq<Fetched>) -> Seq<Dropped>
    decreases messages.len(),
{
    if messages.len() == 0 {
        Seq::empty()
    } else {
        match sorted(messages.last()) {
            Ok(_) => passed_over(messages.drop_last()),
            Err(reason) => passed_over(messages.drop_last()).push(reason),
        }
    }
}

/// Whether `message` holds a reading or an annotation.
pub open spec fn holds_one(message: Sorted) -> bool {
    message.0 is Some || message.1 is Some
}

/// Sorts one delivered message.
pub fn sort(message: Fetched) -> (outcome: Result<Sorted, Dropped>)
    ensures
        outcome == sorted(message),
{
    match message {
        Fetched::SignedPacket(decoded) => match decoded.reading {
            Some(reading) => Ok((Some(reading), None)),
            None => match decoded.annotation {
                Some(annotation) => Ok((None, Some(annotation))),
                None => Err(Dropped::Undecodable),
            },
        },
        Fetched::Unsupported => Err(Dropped::Unsupported),
    }
}

/// The author of the channel, announced.
///
/// The channel and its announcement never change. The list of admitted
/// subscribers only grows, by one public key with every keyload issued.
#[derive(Debug)]
pub struct ChannelAuthor {
    announcement_id: Address,
    admitted: Vec<Vec<u8>>,
}

/// The bytes of each key of `keys`.
pub open spec fn key_bytes(keys: Seq<Vec<u8>>) -> Seq<Seq<u8>> {
    keys.map_values(|key: Vec<u8>| key@)
}

impl ChannelAuthor {
    /// The link of the announcement: the channel, and the announcement's identifier in it.
    pub closed spec fn announcement(&self) -> (Seq<char>, Seq<char>) {
        self.announcement_id@
    }

    /// The public keys admitted so far, oldest first.
    pub closed spec fn admitted(&self) -> Seq<Seq<u8>> {
        key_bytes(self.admitted@)
    }

    /// The author of the channel that `announced` established. There is no
    /// author without an announcement: where the transport failed to
    /// announce, so does this.
    pub fn new(announced: Result<Address, TransportError>) -> (made: Result<Self, AuthorError>)
        ensures
            match (announced, made) {
                (Ok(link), Ok(author)) => author.announcement() == link@ && author.admitted()
                    == Seq::<Seq<u8>>::empty(),
                (Err(error), Err(failure)) => failure@ == Failure::Transport(error@),
                _ => false,
            },
    {
        match announced {
            Ok(link) => {
                let author = ChannelAuthor { announcement_id: link, admitted: Vec::new() };
                assert(author.admitted() =~= Seq::<Seq<u8>>::empty());
                Ok(author)
            },
            Err(error) => Err(AuthorError::Transport(error)),
        }
    }

    /// The address of the channel. Always succeeds.
    pub fn get_channel_address(&self) -> (address: Result<String, AuthorError>)
        ensures
            match address {
                Ok(address) => address@ == self.announcement().0,
                Err(_) => false,
            },
    {
        Ok(self.announcement_id.appinst.clone())
    }

    /// The link of the announcement, channel first. Always succeeds.
    pub fn get_announcement_id(&self) -> (link: Result<(String, String), AuthorError>)
        ensures
            match link {
                Ok(link) => (link.0@, link.1@) == self.announcement(),
                Err(_) => false,
            },
    {
        Ok((self.announcement_id.appinst.clone(), self.announcement_id.msgid.clone()))
    }

    /// The public keys admitted so far, oldest first.
    pub fn subscribers(&self) -> (keys: &Vec<Vec<u8>>)
        ensures
            key_bytes(keys@) == self.admitted(),
    {
        &self.admitted
    }

    /// Begins the admission of the subscriber with public key `pk`, whose
    /// handshake is the message that `link` names. Nothing is asked of the
    /// ledger yet: first the transport is to read the link, then to judge
    /// the key.
    pub fn subscribe(&self, link: &str, pk: &Vec<u8>) -> (pending: PendingLink)
        ensures
            pending@ == (link@, pk@),
    {
        PendingLink { link: String::from_str(link), pk: pk.clone() }
    }

    /// Goes on once the transport has read the link: `msgid` is the
    /// identifier that it read, or `None` where the link is malformed.
    ///
    /// A malformed link ends the admission with an error that quotes it, and
    /// nothing is left to ask of the transport. Otherwise the transport is to
    /// say whether the bytes given as the public key are one.
    pub fn link_parsed(&self, pending: PendingLink, msgid: Option<String>) -> (next: Result<
        PendingKey,
        AuthorError,
    >)
        ensures
            match (msgid, next) {
                (Some(msgid), Ok(key)) => key@ == (msgid@, pending@.1),
                (None, Err(failure)) => failure@ == Failure::MalformedLink(pending@.0),
                _ => false,
            },
    {
        match msgid {
            Some(msgid) => Ok(PendingKey { msgid, pk: pending.pk }),
            None => Err(AuthorError::MalformedLink(pending.link)),
        }
    }

    /// Goes on once the transport has judged the key: `valid` says whether
    /// the bytes are a public key.
    ///
    /// Bytes that are no public key end the admission with an error before
    /// anything was asked of the ledger: no handshake is taken in and no
    /// keyload issued. Otherwise the transport is to take in the handshake
    /// that has the identifier read from the link in the author's channel.
    pub fn key_checked(&self, pending: PendingKey, valid: bool) -> (next: Result<
        PendingHandshake,
        AuthorError,
    >)
        ensures
            match next {
                Ok(handshake) => valid && handshake@ == (
                    (self.announcement().0, pending@.0),
                    pending@.1,
                ),
                Err(failure) => !valid && failure@ == Failure::InvalidKey,
            },
    {
        if valid {
            Ok(
                PendingHandshake {
                    address: Address {
                        appinst: self.announcement_id.appinst.clone(),
                        msgid: pending.msgid,
                    },
                    pk: pending.pk,
                },
            )
        } else {
            Err(AuthorError::InvalidKey)
        }
    }

    /// Goes on once the transport has answered to the handshake. Where it
    /// failed, so does the admission; otherwise it is to issue the keyload.
    pub fn subscribe_received(
        &self,
        pending: PendingHandshake,
        received: Result<(), TransportError>,
    ) -> (next: Result<PendingKeyload, AuthorError>)
        ensures
            match (received, next) {
                (Ok(_), Ok(keyload)) => keyload@ == (self.announcement(), pending@.1),
                (Err(error), Err(failure)) => failure@ == Failure::Transport(error@),
                _ => false,
            },
    {
        match received {
            Ok(_) => Ok(
                PendingKeyload { announcement: self.announcement_id.clone(), pk: pending.pk },
            ),
            Err(error) => Err(AuthorError::Transport(error)),
        }
    }

    /// Ends the admission once the transport has answered to the keyload:
    /// with the link of the keyload that it issued, by which the key is
    /// admitted, or with its failure, by which nobody is.
    pub fn keyload_sent(
        &mut self,
        pending: PendingKeyload,
        sent: Result<String, TransportError>,
    ) -> (link: Result<String, AuthorError>)
        ensures
            final(self).announcement() == old(self).announcement(),
            match (sent, link) {
                (Ok(keyload), Ok(link)) => link == keyload && final(self).admitted() == old(
                    self,
                ).admitted().push(pending@.1),
                (Err(error), Err(failure)) => failure@ == Failure::Transport(error@)
                    && final(self).admitted() == old(self).admitted(),
                _ => false,
            },
    {
        match sent {
            Ok(keyload) => {
                proof {
                    assert(key_bytes(self.admitted@.push(pending.pk)) =~= key_bytes(
                        self.admitted@,
                    ).push(pending.pk@));
                }
                self.admitted.push(pending.pk);
                Ok(keyload)
            },
            Err(error) => Err(AuthorError::Transport(error)),
        }
    }

    /// Sorts what the transport has newly fetched from the channel: every
    /// reading and every annotation, in the order of their delivery. What is
    /// neither is passed over. Always succeeds.
    pub fn get_next_msgs(&self, fetched: Vec<Fetched>) -> (found: Result<Vec<Sorted>, AuthorError>)
        ensures
            match found {
                Ok(messages) => messages@ == kept(fetched@) && forall|at: int|
                    0 <= at < messages@.len() ==> holds_one(#[trigger] messages@[at]),
                Err(_) => false,
            },
    {
        let mut messages: Vec<Sorted> = Vec::new();
        let ghost all = fetched@;
        for message in given: fetched
            invariant
                given.seq() == all,
                messages@ == kept(all.take(given.index() as int)),
                forall|at: int| 0 <= at < messages@.len() ==> holds_one(#[trigger] messages@[at]),
        {
            proof {
                assert(all.take(given.index() + 1).drop_last() =~= all.take(given.index() as int));
            }
            match sort(message) {
                Ok(message) => {
                    messages.push(message);
                },
                Err(_) => {},
            }
        }
        assert(all.take(all.len() as int) =~= all);
        Ok(messages)
    }

    /// Why each message that `get_next_msgs` passes over is, in the order of
    /// their delivery: a warning is due for each.
    pub fn dropped(&self, fetched: &Vec<Fetched>) -> (reasons: Vec<Dropped>)
        ensures
            reasons@ == passed_over(fetched@),
    {
        let mut reasons: Vec<Dropped> = Vec::new();
        let mut at: usize = 0;
        while at < fetched.len()
            invariant
                at <= fetched@.len(),
                reasons@ == passed_over(fetched@.take(at as int)),
            decreases fetched@.len() - at,
        {
            proof {
                assert(fetched@.take(at + 1).drop_last() =~= fetched@.take(at as int));
            }
            match &fetched[at] {
                Fetched::SignedPacket(decoded) => {
                    if decoded.reading.is_none() && decoded.annotation.is_none() {
                        reasons.push(Dropped::Undecodable);
                    }
                },
                Fetched::Unsupported => {
                    reasons.push(Dropped::Unsupported);
                },
            }
            at += 1;
        }
        assert(fetched@.take(at as int) =~= fetched@);
        reasons
    }
}

} // verus!
