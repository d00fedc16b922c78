//! The handshake between a client and a node, from both ends.
//!
//! The client sends its public key and a nonce; the node answers with its signature
//! over that nonce and a nonce of its own; the client answers with its signature over
//! that one, and the node acknowledges. A node with a whitelist serves nothing before
//! that.
use vstd::prelude::*;
use vstd::string::StringExecFns;

use crate::identity::{
    auth_domain, ed_public, ed_sign, ed_verify, in_domain, verify_challenge, NodeIdentity, Nonce,
    PubKey,
};
use crate::node::{Request, Response};
use crate::whitelist::{lists, SignedList, Whitelist};

verus! {

/// Where the handshake on a connection stands.
#[derive(Debug, Clone, Copy)]
pub struct Session {
    /// Whether a client has proved who it is.
    pub authenticated: bool,
    /// The client's key and the nonce that it still has to sign.
    pub awaiting: Option<(PubKey, Nonce)>,
}

/// What the node does about a frame.
#[derive(Debug)]
pub enum Action {
    /// Send this, and go on.
    Reply(Response),
    /// Send this, and close the connection.
    Close(Response),
    /// Serve the request.
    Serve(Request),
}

/// Why a frame is refused.
#[derive(Debug, Clone, Copy, PartialEq, Eq, Structural)]
pub enum Refusal {
    NotWhitelisted,
    NotComplete,
    BadClientSignature,
    UnexpectedComplete,
    HandshakeRequired,
}

impl Refusal {
    /// What the client is told.
    pub open spec fn text(self) -> Seq<char> {
        match self {
            Refusal::NotWhitelisted => "handshake: client pubkey is not in ingress whitelist"@,
            Refusal::NotComplete => "handshake: expected HandshakeComplete, got another frame"@,
            Refusal::BadClientSignature =>
                "handshake: client signature over server nonce failed verification"@,
            Refusal::UnexpectedComplete => "unexpected HandshakeComplete frame"@,
            Refusal::HandshakeRequired =>
                "handshake required: node runs with client whitelist enforcement"@,
        }
    }

    /// What the client is told.
    pub fn message(&self) -> (r: &'static str)
        ensures
            r@ == self.text(),
    {
        match self {
            Refusal::NotWhitelisted => "handshake: client pubkey is not in ingress whitelist",
            Refusal::NotComplete => "handshake: expected HandshakeComplete, got another frame",
            Refusal::BadClientSignature =>
                "handshake: client signature over server nonce failed verification",
            Refusal::UnexpectedComplete => "unexpected HandshakeComplete frame",
            Refusal::HandshakeRequired =>
                "handshake required: node runs with client whitelist enforcement",
        }
    }
}

/// What the node does about a frame, as a mathematical value.
pub enum Verdict {
    Challenge,
    Acknowledge,
    Refuse(Refusal),
    Serve,
}

/// Whether a client may begin a handshake: its key is listed, or there is no list.
pub open spec fn admitted(list: Option<SignedList>, pubkey: Seq<u8>) -> bool {
    list matches Some(w) ==> lists(w, pubkey)
}

/// What the node does about a frame.
pub open spec fn verdict(s: Session, req: Request, list: Option<SignedList>) -> Verdict {
    match s.awaiting {
        Some((pk, nonce)) => match req {
            Request::HandshakeComplete { client_signature } => if ed_verify(
                pk@,
                in_domain(auth_domain(), nonce@),
                client_signature@,
            ) {
                Verdict::Acknowledge
            } else {
                Verdict::Refuse(Refusal::BadClientSignature)
            },
            _ => Verdict::Refuse(Refusal::NotComplete),
        },
        None => match req {
            Request::Handshake { client_pubkey, client_nonce } => if admitted(list, client_pubkey@) {
                Verdict::Challenge
            } else {
                Verdict::Refuse(Refusal::NotWhitelisted)
            },
            Request::HandshakeComplete { .. } => Verdict::Refuse(Refusal::UnexpectedComplete),
            _ => if list is Some && !s.authenticated {
                Verdict::Refuse(Refusal::HandshakeRequired)
            } else {
                Verdict::Serve
            },
        },
    }
}

/// Where the handshake stands after a frame.
pub open spec fn next_session(s: Session, req: Request, list: Option<SignedList>, server_nonce: Nonce) -> Session {
    match verdict(s, req, list) {
        Verdict::Challenge => Session {
            awaiting: Some((req->client_pubkey, server_nonce)),
            ..s
        },
        Verdict::Acknowledge => Session { authenticated: true, awaiting: None },
        _ => s,
    }
}

/// The whitelist that is enforced, where there is one.
pub open spec fn enforced(w: Option<&Whitelist>) -> Option<SignedList> {
    match w {
        Some(w) => Some(w@),
        None => None,
    }
}

impl Session {
    /// A connection on which nothing has been said.
    pub fn new() -> (r: Session)
        ensures
            !r.authenticated,
            r.awaiting is None,
    {
        Session { authenticated: false, awaiting: None }
    }

    /// Takes the next frame. `server_nonce` is fresh; it is used where the frame begins
    /// a handshake.
    pub fn on_frame(
        &mut self,
        req: Request,
        identity: &NodeIdentity,
        client_whitelist: Option<&Whitelist>,
        server_nonce: Nonce,
    ) -> (r: Action)
        ensures
            *final(self) == next_session(*old(self), req, enforced(client_whitelist), server_nonce),
            match verdict(*old(self), req, enforced(client_whitelist)) {
                Verdict::Challenge => r == Action::Reply(
                    Response::HandshakeChallenge {
                        node_signature: ed_sign(
                            identity@,
                            in_domain(auth_domain(), req->client_nonce@),
                        ),
                        server_nonce,
                    },
                ),
                Verdict::Acknowledge => r == Action::Reply(Response::Ack),
                Verdict::Refuse(w) => r matches Action::Close(Response::Error(t)) && t@ == w.text(),
                Verdict::Serve => r == Action::Serve(req),
            },
    {
        match self.awaiting {
            Some((pk, nonce)) => {
                match req {
                    Request::HandshakeComplete { client_signature } => {
                        if verify_challenge(&pk, &nonce, &client_signature) {
                            self.authenticated = true;
                            self.awaiting = None;
                            Action::Reply(Response::Ack)
                        } else {
                            refuse(Refusal::BadClientSignature)
                        }
                    },
                    _ => refuse(Refusal::NotComplete),
                }
            },
            None => {
                match req {
                    Request::Handshake { client_pubkey, client_nonce } => {
                        match client_whitelist {
                            Some(w) => {
                                if w.lookup_by_pubkey(&client_pubkey).is_none() {
                                    return refuse(Refusal::NotWhitelisted);
                                }
                            },
                            None => {},
                        }
                        let node_signature = identity.sign_challenge(&client_nonce);
                        self.awaiting = Some((client_pubkey, server_nonce));
                        Action::Reply(
                            Response::HandshakeChallenge { node_signature, server_nonce },
                        )
                    },
                    Request::HandshakeComplete { .. } => refuse(Refusal::UnexpectedComplete),
                    other => {
                        if client_whitelist.is_some() && !self.authenticated {
                            refuse(Refusal::HandshakeRequired)
                        } else {
                            Action::Serve(other)
                        }
                    },
                }
            },
        }
    }
}

/// Refuses a frame and closes the connection.
fn refuse(w: Refusal) -> (r: Action)
    ensures
        r matches Action::Close(Response::Error(t)) && t@ == w.text(),
{
    Action::Close(Response::Error(String::from_str(w.message())))
}

/// Where a connection stands after some frames, each with the nonce that was fresh
/// when it came. A refused frame closes the connection: it changes nothing, and none
/// follows it.
pub open spec fn after_frames(frames: Seq<(Request, Nonce)>, list: Option<SignedList>, start: Session) -> Session
    decreases frames.len(),
{
    if frames.len() == 0 {
        start
    } else {
        let s = after_frames(frames.drop_last(), list, start);
        next_session(s, frames.last().0, list, frames.last().1)
    }
}

/// Whether the frame at `j` completes a handshake: it carries a signature over the nonce
/// that the node gave in answer to an earlier frame, under the listed key in that frame.
pub open spec fn completes_handshake(
    frames: Seq<(Request, Nonce)>,
    list: Option<SignedList>,
    i: int,
    j: int,
) -> bool {
    &&& 0 <= i < j < frames.len()
    &&& frames[i].0 is Handshake
    &&& frames[j].0 is HandshakeComplete
    &&& admitted(list, frames[i].0->client_pubkey@)
    &&& ed_verify(
        frames[i].0->client_pubkey@,
        in_domain(auth_domain(), frames[i].1@),
        frames[j].0->client_signature@,
    )
}

/// Whether a session's pending nonce was handed out for a frame before.
spec fn pending_is_from(frames: Seq<(Request, Nonce)>, list: Option<SignedList>, s: Session) -> bool {
    s.awaiting matches Some((pk, nonce)) ==> exists|i: int|
        {
            &&& 0 <= i < frames.len()
            &&& (#[trigger] frames[i]).0 is Handshake
            &&& frames[i].0->client_pubkey == pk
            &&& frames[i].1 == nonce
            &&& admitted(list, pk@)
        }
}

proof fn lemma_session_history(frames: Seq<(Request, Nonce)>, list: Option<SignedList>)
    ensures
        ({
            let s = after_frames(frames, list, Session { authenticated: false, awaiting: None });
            &&& pending_is_from(frames, list, s)
            &&& s.authenticated ==> exists|i: int, j: int|
                #[trigger] completes_handshake(frames, list, i, j)
        }),
    decreases frames.len(),
{
    let start = Session { authenticated: false, awaiting: None };
    if frames.len() > 0 {
        let t = frames.drop_last();
        let n = t.len() as int;
        lemma_session_history(t, list);
        let s0 = after_frames(t, list, start);
        let s = after_frames(frames, list, start);
        let req = frames.last().0;
        assert(forall|k: int| 0 <= k < n ==> frames[k] == t[k]);
        if s0.awaiting is Some {
            let (pk, nonce) = s0.awaiting->0;
            let i = choose|i: int|
                {
                    &&& 0 <= i < t.len()
                    &&& (#[trigger] t[i]).0 is Handshake
                    &&& t[i].0->client_pubkey == pk
                    &&& t[i].1 == nonce
                    &&& admitted(list, pk@)
                };
            assert(frames[i] == t[i]);
            if verdict(s0, req, list) is Acknowledge {
                assert(completes_handshake(frames, list, i, n));
            }
        }
        if verdict(s0, req, list) is Challenge {
            assert(frames[n].0 is Handshake);
        }
        if s0.authenticated {
            let (i, j) = choose|i: int, j: int| #[trigger] completes_handshake(t, list, i, j);
            assert(frames[i] == t[i] && frames[j] == t[j]);
            assert(completes_handshake(frames, list, i, j));
        }
    }
}

/// A node with a whitelist serves no request on a connection before a client with a
/// listed key has signed the nonce that the node gave it.
pub proof fn nothing_is_served_before_the_handshake(
    frames: Seq<(Request, Nonce)>,
    list: SignedList,
    req: Request,
)
    requires
        verdict(
            after_frames(frames, Some(list), Session { authenticated: false, awaiting: None }),
            req,
            Some(list),
        ) is Serve,
    ensures
        exists|i: int, j: int| #[trigger] completes_handshake(frames, Some(list), i, j),
{
    lemma_session_history(frames, Some(list));
}

/// A node without a whitelist serves a client that never shook hands.
pub proof fn permissive_node_serves_at_once(req: Request)
    requires
        !(req is Handshake),
        !(req is HandshakeComplete),
    ensures
        verdict(Session { authenticated: false, awaiting: None }, req, None) is Serve,
{
}

/// Why a client gives a handshake up.
#[derive(Debug)]
pub enum ClientError {
    /// The node refused the key, in these words.
    Rejected(String),
    /// The node did not answer with a challenge.
    NotAChallenge,
    /// The node is not the expected one.
    BadNodeSignature,
    /// The node refused the signature, in these words.
    RejectedOnComplete(String),
    /// The node did not acknowledge.
    NotAnAck,
}

impl ClientError {
    /// The error in words.
    pub open spec fn text(self) -> Seq<char> {
        match self {
            ClientError::Rejected(m) => "node rejected handshake: "@ + m@,
            ClientError::NotAChallenge => "expected HandshakeChallenge, got another frame"@,
            ClientError::BadNodeSignature =>
                "node signature over client nonce failed verification"@,
            ClientError::RejectedOnComplete(m) => "node rejected on complete: "@ + m@,
            ClientError::NotAnAck =>
                "expected Ack after HandshakeComplete, got another frame"@,
        }
    }

    /// The error in words.
    pub fn message(&self) -> (r: String)
        ensures
            r@ == self.text(),
    {
        match self {
            ClientError::Rejected(m) => String::from_str("node rejected handshake: ").concat(
                m.as_str(),
            ),
            ClientError::NotAChallenge => String::from_str(
                "expected HandshakeChallenge, got another frame",
            ),
            ClientError::BadNodeSignature => String::from_str(
                "node signature over client nonce failed verification",
            ),
            ClientError::RejectedOnComplete(m) => String::from_str(
                "node rejected on complete: ",
            ).concat(m.as_str()),
            ClientError::NotAnAck => String::from_str(
                "expected Ack after HandshakeComplete, got another frame",
            ),
        }
    }
}

/// The client's first frame, with a fresh nonce.
pub fn client_hello(identity: &NodeIdentity, client_nonce: Nonce) -> (r: Request)
    ensures
        r == (Request::Handshake { client_pubkey: ed_public(identity@), client_nonce }),
{
    Request::Handshake { client_pubkey: identity.pubkey(), client_nonce }
}

/// The client's second frame, in answer to the node's challenge.
pub fn client_answer(
    identity: &NodeIdentity,
    expected_node_pubkey: &PubKey,
    client_nonce: &Nonce,
    resp: Response,
) -> (r: Result<Request, ClientError>)
    ensures
        match resp {
            Response::HandshakeChallenge { node_signature, server_nonce } => if ed_verify(
                expected_node_pubkey@,
                in_domain(auth_domain(), client_nonce@),
                node_signature@,
            ) {
                &&& r matches Ok(Request::HandshakeComplete { client_signature })
                &&& (r->Ok_0)->client_signature == ed_sign(
                    identity@,
                    in_domain(auth_domain(), server_nonce@),
                )
                &&& ed_verify(
                    ed_public(identity@)@,
                    in_domain(auth_domain(), server_nonce@),
                    (r->Ok_0)->client_signature@,
                )
            } else {
                r matches Err(ClientError::BadNodeSignature)
            },
            Response::Error(m) => r matches Err(ClientError::Rejected(t)) && t == m,
            _ => r matches Err(ClientError::NotAChallenge),
        },
{
    match resp {
        Response::HandshakeChallenge { node_signature, server_nonce } => {
            if verify_challenge(expected_node_pubkey, client_nonce, &node_signature) {
                Ok(
                    Request::HandshakeComplete {
                        client_signature: identity.sign_challenge(&server_nonce),
                    },
                )
            } else {
                Err(ClientError::BadNodeSignature)
            }
        },
        Response::Error(m) => Err(ClientError::Rejected(m)),
        _ => Err(ClientError::NotAChallenge),
    }
}

/// Whether the handshake is complete, from the node's last answer.
pub fn client_done(resp: Response) -> (r: Result<(), ClientError>)
    ensures
        match resp {
            Response::Ack => r is Ok,
            Response::Error(m) => r matches Err(ClientError::RejectedOnComplete(t)) && t == m,
            _ => r matches Err(ClientError::NotAnAck),
        },
{
    match resp {
        Response::Ack => Ok(()),
        Response::Error(m) => Err(ClientError::RejectedOnComplete(m)),
        _ => Err(ClientError::NotAnAck),
    }
}

} // verus!
