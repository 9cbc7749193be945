//! The requests that a client puts to a node over JSON-RPC.

use vstd::prelude::*;
use crate::error::Error;
use crate::session::SessionSk;

verus! {

/// The methods of a node.
#[derive(Debug, Clone, Copy, PartialEq, Eq, Structural)]
pub enum Method {
    ConnectPeerViaHttp,
    ConnectWithSeed,
    ConnectWithDid,
    ListPeers,
    Disconnect,
    SendTo,
    SendCustomMessage,
    RegisterService,
    LookupService,
    PublishMessageToTopic,
    FetchMessagesOfTopic,
    NodeInfo,
}

/// The name of a method on the wire.
pub open spec fn method_name(m: Method) -> Seq<char> {
    match m {
        Method::ConnectPeerViaHttp => "connectPeerViaHttp"@,
        Method::ConnectWithSeed => "connectWithSeed"@,
        Method::ConnectWithDid => "connectWithDid"@,
        Method::ListPeers => "listPeers"@,
        Method::Disconnect => "disconnect"@,
        Method::SendTo => "sendTo"@,
        Method::SendCustomMessage => "sendCustomMessage"@,
        Method::RegisterService => "registerService"@,
        Method::LookupService => "lookupService"@,
        Method::PublishMessageToTopic => "publishMessageToTopic"@,
        Method::FetchMessagesOfTopic => "fetchMessagesOfTopic"@,
        Method::NodeInfo => "nodeInfo"@,
    }
}

impl Method {
    /// The name of the method on the wire.
    pub fn as_str(&self) -> (name: &'static str)
        ensures
            name@ == method_name(*self),
    {
        match self {
            Method::ConnectPeerViaHttp => "connectPeerViaHttp",
            Method::ConnectWithSeed => "connectWithSeed",
            Method::ConnectWithDid => "connectWithDid",
            Method::ListPeers => "listPeers",
            Method::Disconnect => "disconnect",
            Method::SendTo => "sendTo",
            Method::SendCustomMessage => "sendCustomMessage",
            Method::RegisterService => "registerService",
            Method::LookupService => "lookupService",
            Method::PublishMessageToTopic => "publishMessageToTopic",
            Method::FetchMessagesOfTopic => "fetchMessagesOfTopic",
            Method::NodeInfo => "nodeInfo",
        }
    }
}

/// One parameter of a request.
#[derive(Debug, Clone, PartialEq, Eq)]
pub enum Param {
    /// A string.
    Text(String),
    /// A number.
    Number(usize),
    /// A JSON value, in its text form.
    Json(String),
}

/// A parameter as a mathematical value.
pub enum ParamView {
    Text(Seq<char>),
    Number(usize),
    Json(Seq<char>),
}

impl View for Param {
    type V = ParamView;

    open spec fn view(&self) -> ParamView {
        match self {
            Param::Text(s) => ParamView::Text(s@),
            Param::Number(n) => ParamView::Number(*n),
            Param::Json(s) => ParamView::Json(s@),
        }
    }
}

/// The parameters of a request.
#[derive(Debug, Clone, PartialEq, Eq)]
pub enum Params {
    Absent,
    Array(Vec<Param>),
    Object(Vec<(String, Param)>),
}

/// The parameters of a request, as a mathematical value.
pub enum ParamsView {
    Absent,
    Array(Seq<ParamView>),
    Object(Seq<(Seq<char>, ParamView)>),
}

impl View for Params {
    type V = ParamsView;

    open spec fn view(&self) -> ParamsView {
        match self {
            Params::Absent => ParamsView::Absent,
            Params::Array(v) => ParamsView::Array(v@.map_values(|p: Param| p@)),
            Params::Object(v) => ParamsView::Object(v@.map_values(|e: (String, Param)| (e.0@, e.1@))),
        }
    }
}

/// A request: a method and its parameters.
#[derive(Debug, Clone, PartialEq, Eq)]
pub struct Request {
    pub method: Method,
    pub params: Params,
}

fn one(a: Param) -> (v: Vec<Param>)
    ensures
        v@.map_values(|p: Param| p@) == seq![a@],
{
    let mut v: Vec<Param> = Vec::new();
    v.push(a);
    assert(v@.map_values(|p: Param| p@) =~= seq![a@]);
    v
}

fn two(a: Param, b: Param) -> (v: Vec<Param>)
    ensures
        v@.map_values(|p: Param| p@) == seq![a@, b@],
{
    let mut v: Vec<Param> = Vec::new();
    v.push(a);
    v.push(b);
    assert(v@.map_values(|p: Param| p@) =~= seq![a@, b@]);
    v
}

/// The client of a node: it knows the node's endpoint, makes the requests
/// that are put to it, and holds the session under which they are signed,
/// if they are.
#[derive(Debug, Clone, PartialEq, Eq)]
pub struct Client {
    endpoint_url: String,
    delegated_sk: Option<SessionSk>,
}

impl Client {
    /// A client of the node at `endpoint_url`, with the session under
    /// which its requests are signed, if they are.
    pub fn new(endpoint_url: &str, delegated_sk: Option<SessionSk>) -> (c: Client)
        ensures
            c.endpoint_view() == endpoint_url@,
            c.session_view() == delegated_sk,
    {
        Client { endpoint_url: endpoint_url.to_owned(), delegated_sk }
    }

    pub closed spec fn endpoint_view(&self) -> Seq<char> {
        self.endpoint_url@
    }

    pub closed spec fn session_view(&self) -> Option<SessionSk> {
        self.delegated_sk
    }

    /// The endpoint of the node.
    pub fn endpoint_url(&self) -> (url: String)
        ensures
            url@ == self.endpoint_view(),
    {
        self.endpoint_url.clone()
    }

    /// The session under which the requests are signed, if they are.
    pub fn delegated_sk(&self) -> (s: &Option<SessionSk>)
        ensures
            *s == self.session_view(),
    {
        &self.delegated_sk
    }

    /// Asks the node to connect to the peer behind `http_url`.
    pub fn connect_peer_via_http(&self, http_url: &str) -> (r: Request)
        ensures
            r.method == Method::ConnectPeerViaHttp,
            r.params@ == ParamsView::Array(seq![ParamView::Text(http_url@)]),
    {
        Request {
            method: Method::ConnectPeerViaHttp,
            params: Params::Array(one(Param::Text(http_url.to_owned()))),
        }
    }

    /// The identifier of the peer in the answer to `connect_peer_via_http`:
    /// the answer has to be a string.
    pub fn connected_peer(answer: Option<&str>) -> (r: Result<String, Error>)
        ensures
            match r {
                Ok(did) => answer matches Some(s) && did@ == s@,
                Err(e) => answer is None && e == Error::DecodeError,
            },
    {
        match answer {
            Some(s) => Ok(s.to_owned()),
            None => Err(Error::DecodeError),
        }
    }

    /// Asks the node to connect to the peers of a seed. Each seed is a
    /// JSON value in its text form.
    pub fn connect_with_seed(&self, seeds: Vec<String>) -> (r: Request)
        ensures
            r.method == Method::ConnectWithSeed,
            r.params@ == ParamsView::Array(seeds@.map_values(|s: String| ParamView::Json(s@))),
    {
        let mut params: Vec<Param> = Vec::new();
        let mut i: usize = 0;
        while i < seeds.len()
            invariant
                i <= seeds@.len(),
                params@.len() == i,
                forall|j: int| 0 <= j < i ==> (#[trigger] params@[j])@ == ParamView::Json(seeds@[j]@),
            decreases seeds@.len() - i,
        {
            params.push(Param::Json(seeds[i].clone()));
            i = i + 1;
        }
        assert(params@.map_values(|p: Param| p@) =~= seeds@.map_values(
            |s: String| ParamView::Json(s@),
        ));
        Request { method: Method::ConnectWithSeed, params: Params::Array(params) }
    }

    /// Asks the node to connect to the peer `did`.
    pub fn connect_with_did(&self, did: &str) -> (r: Request)
        ensures
            r.method == Method::ConnectWithDid,
            r.params@ == ParamsView::Array(seq![ParamView::Text(did@)]),
    {
        Request {
            method: Method::ConnectWithDid,
            params: Params::Array(one(Param::Text(did.to_owned()))),
        }
    }

    /// Asks the node for its peers.
    pub fn list_peers(&self) -> (r: Request)
        ensures
            r.method == Method::ListPeers,
            r.params@ == ParamsView::Array(Seq::empty()),
    {
        let params: Vec<Param> = Vec::new();
        assert(params@.map_values(|p: Param| p@) =~= Seq::<ParamView>::empty());
        Request { method: Method::ListPeers, params: Params::Array(params) }
    }

    /// Asks the node to disconnect from the peer `did`.
    pub fn disconnect(&self, did: &str) -> (r: Request)
        ensures
            r.method == Method::Disconnect,
            r.params@ == ParamsView::Array(seq![ParamView::Text(did@)]),
    {
        Request { method: Method::Disconnect, params: Params::Array(one(Param::Text(did.to_owned()))) }
    }

    /// Asks the node to send `text` to the peer `did`.
    pub fn send_message(&self, did: &str, text: &str) -> (r: Request)
        ensures
            r.method == Method::SendTo,
            r.params@ == ParamsView::Object(
                seq![
                    ("destination"@, ParamView::Text(did@)),
                    ("text"@, ParamView::Text(text@)),
                ],
            ),
    {
        let mut params: Vec<(String, Param)> = Vec::new();
        params.push(("destination".to_owned(), Param::Text(did.to_owned())));
        params.push(("text".to_owned(), Param::Text(text.to_owned())));
        assert(params@.map_values(|e: (String, Param)| (e.0@, e.1@)) =~= seq![
            ("destination"@, ParamView::Text(did@)),
            ("text"@, ParamView::Text(text@)),
        ]);
        Request { method: Method::SendTo, params: Params::Object(params) }
    }

    /// Asks the node to send a custom message, given in base 64, to the
    /// peer `did`.
    pub fn send_custom_message(&self, did: &str, data_b64: &str) -> (r: Request)
        ensures
            r.method == Method::SendCustomMessage,
            r.params@ == ParamsView::Array(
                seq![ParamView::Text(did@), ParamView::Text(data_b64@)],
            ),
    {
        Request {
            method: Method::SendCustomMessage,
            params: Params::Array(
                two(Param::Text(did.to_owned()), Param::Text(data_b64.to_owned())),
            ),
        }
    }

    /// Asks the node to register the service `name`.
    pub fn register_service(&self, name: &str) -> (r: Request)
        ensures
            r.method == Method::RegisterService,
            r.params@ == ParamsView::Array(seq![ParamView::Text(name@)]),
    {
        Request {
            method: Method::RegisterService,
            params: Params::Array(one(Param::Text(name.to_owned()))),
        }
    }

    /// Asks the node for the peers that offer the service `name`.
    pub fn lookup_service(&self, name: &str) -> (r: Request)
        ensures
            r.method == Method::LookupService,
            r.params@ == ParamsView::Array(seq![ParamView::Text(name@)]),
    {
        Request {
            method: Method::LookupService,
            params: Params::Array(one(Param::Text(name.to_owned()))),
        }
    }

    /// Asks the node to publish `data` to `topic`.
    pub fn publish_message_to_topic(&self, topic: &str, data: &str) -> (r: Request)
        ensures
            r.method == Method::PublishMessageToTopic,
            r.params@ == ParamsView::Array(seq![ParamView::Text(topic@), ParamView::Text(data@)]),
    {
        Request {
            method: Method::PublishMessageToTopic,
            params: Params::Array(two(Param::Text(topic.to_owned()), Param::Text(data.to_owned()))),
        }
    }

    /// Asks the node for the messages of `topic` from `index` on.
    pub fn fetch_topic_messages(&self, topic: &str, index: usize) -> (r: Request)
        ensures
            r.method == Method::FetchMessagesOfTopic,
            r.params@ == ParamsView::Array(seq![ParamView::Text(topic@), ParamView::Number(index)]),
    {
        Request {
            method: Method::FetchMessagesOfTopic,
            params: Params::Array(two(Param::Text(topic.to_owned()), Param::Number(index))),
        }
    }

    /// Asks the node what it knows of the swarm.
    pub fn inspect(&self) -> (r: Request)
        ensures
            r.method == Method::NodeInfo,
            r.params@ == ParamsView::Absent,
    {
        Request { method: Method::NodeInfo, params: Params::Absent }
    }
}

/// The arguments of the node's command line.
#[derive(Debug, Clone, PartialEq, Eq)]
pub struct Args {
    pub http_addr: String,
    pub config_filename: String,
    pub log_level: String,
    pub stun_server: String,
    pub eth_endpoint: String,
    pub eth_key: String,
}

impl Args {
    /// The arguments of a command line that gives the key and nothing
    /// else.
    pub fn new(eth_key: String) -> (a: Args)
        ensures
            a.http_addr@ == "127.0.0.1:50000"@,
            a.config_filename@ == "bns-node.toml"@,
            a.log_level@ == "Info"@,
            a.stun_server@ == "stun:stun.l.google.com:19302"@,
            a.eth_endpoint@ == "http://127.0.0.1:8545"@,
            a.eth_key == eth_key,
    {
        Args {
            http_addr: "127.0.0.1:50000".to_owned(),
            config_filename: "bns-node.toml".to_owned(),
            log_level: "Info".to_owned(),
            stun_server: "stun:stun.l.google.com:19302".to_owned(),
            eth_endpoint: "http://127.0.0.1:8545".to_owned(),
            eth_key,
        }
    }
}

} // verus!
