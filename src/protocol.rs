//! The request messages that a client sends and the kinds of reply it gets,
//! each a structure told apart by its tag.

use vstd::prelude::*;
use vstd::utf8::encode_utf8;
use crate::format::{enc, enc_list, encodable, sizes_fit};
use crate::serialize::{Serializer, SerializerError};
use crate::value::{Val, Value, bytes_equal, put_entry, model_entries};

verus! {

pub const INIT: u8 = 0x01;
pub const RUN: u8 = 0x10;
pub const DISCARD_ALL: u8 = 0x2F;
pub const PULL_ALL: u8 = 0x3F;
pub const ACK_FAILURE: u8 = 0x0F;

pub const RECORD: u8 = 0x71;
pub const SUCCESS: u8 = 0x70;
pub const FAILURE: u8 = 0x7F;
pub const IGNORED: u8 = 0x7E;

/// The tag of the request message called `name`.
pub open spec fn spec_signature(name: Seq<char>) -> Option<u8> {
    if name == "INIT"@ {
        Some(0x01u8)
    } else if name == "RUN"@ {
        Some(0x10u8)
    } else if name == "DISCARD_ALL"@ {
        Some(0x2Fu8)
    } else if name == "PULL_ALL"@ {
        Some(0x3Fu8)
    } else if name == "ACK_FAILURE"@ {
        Some(0x0Fu8)
    } else {
        None
    }
}

fn same_text(a: &str, b: &str) -> (r: bool)
    ensures
        r == (a@ == b@),
{
    let e = bytes_equal(a.as_bytes(), b.as_bytes());
    proof {
        vstd::utf8::encode_utf8_decode_utf8(a@);
        vstd::utf8::encode_utf8_decode_utf8(b@);
    }
    e
}

/// The tag of the request message called `name`, if there is one.
pub fn signature(name: &str) -> (r: Option<u8>)
    ensures
        r == spec_signature(name@),
{
    if same_text(name, "INIT") {
        Some(INIT)
    } else if same_text(name, "RUN") {
        Some(RUN)
    } else if same_text(name, "DISCARD_ALL") {
        Some(DISCARD_ALL)
    } else if same_text(name, "PULL_ALL") {
        Some(PULL_ALL)
    } else if same_text(name, "ACK_FAILURE") {
        Some(ACK_FAILURE)
    } else {
        None
    }
}

/// The kind of a message from the server.
#[derive(Debug, Clone, Copy, PartialEq, Eq, Structural)]
pub enum ServerMessage {
    Record,
    Success,
    Failure,
    Ignored,
    Unknown(u8),
}

impl ServerMessage {
    /// The kind of server message that a structure tag names.
    pub fn from_signature(sig: u8) -> (r: ServerMessage)
        ensures
            r == (if sig == 0x71 {
                ServerMessage::Record
            } else if sig == 0x70 {
                ServerMessage::Success
            } else if sig == 0x7F {
                ServerMessage::Failure
            } else if sig == 0x7E {
                ServerMessage::Ignored
            } else {
                ServerMessage::Unknown(sig)
            }),
    {
        if sig == RECORD {
            ServerMessage::Record
        } else if sig == SUCCESS {
            ServerMessage::Success
        } else if sig == FAILURE {
            ServerMessage::Failure
        } else if sig == IGNORED {
            ServerMessage::Ignored
        } else {
            ServerMessage::Unknown(sig)
        }
    }
}

proof fn lemma_enc_list_single(v: Val)
    ensures
        enc_list(seq![v]) == enc(v),
{
    assert(seq![v].drop_last() =~= Seq::<Val>::empty());
    assert(enc_list(Seq::<Val>::empty()) + enc(v) =~= enc(v));
}

proof fn lemma_enc_list_pair(a: Val, b: Val)
    ensures
        enc_list(seq![a, b]) == enc(a) + enc(b),
{
    assert(seq![a, b].drop_last() =~= seq![a]);
    lemma_enc_list_single(a);
}

/// The first message of a session: it names the client.
pub struct Init {
    client_name: String,
}

impl Init {
    pub fn new(client_name: &str) -> (r: Self)
        ensures
            r.client_name() == client_name@,
    {
        Init { client_name: client_name.to_owned() }
    }

    pub closed spec fn client_name(&self) -> Seq<char> {
        self.client_name@
    }

    /// The message as a value: a structure tagged `INIT` holding the name.
    pub open spec fn message(&self) -> Val {
        Val::Structure(0x01, seq![Val::Str(self.client_name())])
    }

    /// The packstream bytes of the message.
    pub fn encode(&self) -> (r: Vec<u8>)
        requires
            encode_utf8(self.client_name()).len() <= 4294967295,
        ensures
            r@ == enc(self.message()),
    {
        let mut s = Serializer::new();
        let _ = s.serialize_struct_header(1, INIT);
        s.serialize_str(self.client_name.as_str());
        proof {
            lemma_enc_list_single(Val::Str(self.client_name@));
            assert(s@ =~= enc(self.message()));
        }
        s.into_inner()
    }
}

/// A statement to run, with its parameters.
pub struct Run {
    statement: String,
    parameters: Vec<(String, Value)>,
}

impl Run {
    pub fn new(statement: &str) -> (r: Self)
        ensures
            r.statement() == statement@,
            r.parameters() == Seq::<(Seq<char>, Val)>::empty(),
    {
        Run { statement: statement.to_owned(), parameters: Vec::new() }
    }

    pub closed spec fn statement(&self) -> Seq<char> {
        self.statement@
    }

    pub closed spec fn parameters(&self) -> Seq<(Seq<char>, Val)> {
        model_entries(self.parameters@)
    }

    /// Sets the parameter `name`, replacing a value set before.
    pub fn add_param(&mut self, name: &str, value: Value)
        ensures
            final(self).statement() == old(self).statement(),
            final(self).parameters() == crate::value::map_put(
                old(self).parameters(),
                name@,
                value@,
            ),
    {
        put_entry(&mut self.parameters, name.to_owned(), value);
    }

    /// The message with the parameter `name` set.
    pub fn with_param(self, name: &str, value: Value) -> (r: Self)
        ensures
            r.statement() == self.statement(),
            r.parameters() == crate::value::map_put(self.parameters(), name@, value@),
    {
        let mut r = self;
        r.add_param(name, value);
        r
    }

    /// The message as a value: a structure tagged `RUN` holding the
    /// statement and the map of parameters.
    pub open spec fn message(&self) -> Val {
        Val::Structure(0x10, seq![Val::Str(self.statement()), Val::Dict(self.parameters())])
    }

    /// The packstream bytes of the message. Fails only where a parameter
    /// holds a structure of more than 65535 fields.
    pub fn encode(self) -> (r: Result<Vec<u8>, SerializerError>)
        requires
            sizes_fit(self.message()),
        ensures
            r is Ok <==> encodable(self.message()),
            r matches Ok(bytes) ==> bytes@ == enc(self.message()),
    {
        let ghost items = seq![Val::Str(self.statement()), Val::Dict(self.parameters())];
        proof {
            assert(items[0] == Val::Str(self.statement()));
            assert(items[1] == Val::Dict(self.parameters()));
            crate::format::lemma_encodable_list(items);
            assert(sizes_fit(items[0]));
            assert(sizes_fit(items[1]));
            assert(encodable(items[0]));
        }
        let params = Value::Dict(self.parameters);
        let mut s = Serializer::new();
        let _ = s.serialize_struct_header(2, RUN);
        s.serialize_str(self.statement.as_str());
        match s.serialize_value(&params) {
            Ok(()) => {
                proof {
                    lemma_enc_list_pair(items[0], items[1]);
                    assert(encodable(items[1]));
                    assert(s@ =~= enc(self.message()));
                }
                Ok(s.into_inner())
            },
            Err(e) => {
                proof {
                    assert(!encodable(items[1]));
                }
                Err(e)
            },
        }
    }
}

/// Discards the pending results.
pub struct DiscardAll;

/// Asks for all pending results.
pub struct PullAll;

/// Acknowledges a failure, so that the session takes requests again.
pub struct AckFailure;

/// The bytes of a structure with no fields.
fn empty_structure(tag: u8) -> (r: Vec<u8>)
    ensures
        r@ == enc(Val::Structure(tag, Seq::empty())),
{
    let mut s = Serializer::new();
    let _ = s.serialize_struct_header(0, tag);
    proof {
        assert(s@ =~= enc(Val::Structure(tag, Seq::empty())));
    }
    s.into_inner()
}

impl DiscardAll {
    pub fn encode(&self) -> (r: Vec<u8>)
        ensures
            r@ == enc(Val::Structure(0x2F, Seq::empty())),
    {
        empty_structure(DISCARD_ALL)
    }
}

impl PullAll {
    pub fn encode(&self) -> (r: Vec<u8>)
        ensures
            r@ == enc(Val::Structure(0x3F, Seq::empty())),
    {
        empty_structure(PULL_ALL)
    }
}

impl AckFailure {
    pub fn encode(&self) -> (r: Vec<u8>)
        ensures
            r@ == enc(Val::Structure(0x0F, Seq::empty())),
    {
        empty_structure(ACK_FAILURE)
    }
}

} // verus!
