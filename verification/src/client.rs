//! The signing submission client, as the library models it.
//!
//! A client is bound to one relay URL and carries the relay's short name;
//! the signer identity and the HTTP transport live with the caller. The
//! library decides the URL from the chain, frames the submission request
//! the relay expects, and checks the relay's answer; moving bytes over the
//! network is the caller's job.

use vstd::prelude::*;

use vstd::string::StringExecFns;

use crate::errors::RpcError;
use crate::types::BundleRequest;
use crate::types::SendBundleResponse;
use crate::wire::spec_decode_rpc_response;
use crate::wire::spec_enc_rpc_request;

verus! {

/// The chains the client knows how to reach.
#[derive(Clone, Copy, Debug, PartialEq, Eq, Structural)]
pub enum Chain {
    /// The main network: bundles go to the relay the client was given.
    Mainnet,
    /// The Goerli test network: bundles go to its fixed staging relay.
    Goerli,
}

/// A submission client bound to one relay.
#[derive(Debug)]
pub struct Client {
    /// Base URL requests are sent to.
    pub url: String,
    /// Short name of the relay, for reporting.
    pub client_name: String,
}

/// Mathematical value of a [`Client`].
pub ghost struct ClientV {
    /// Base URL.
    pub url: Seq<char>,
    /// Short name of the relay.
    pub client_name: Seq<char>,
}

impl View for Client {
    type V = ClientV;

    open spec fn view(&self) -> ClientV {
        ClientV { url: self.url@, client_name: self.client_name@ }
    }
}

/// The client a chain, URL and name determine: on the main network the
/// given URL, on the test network its fixed staging relay.
pub open spec fn spec_client(chain: Chain, url: Seq<char>, relay_name: Seq<char>) -> ClientV {
    ClientV {
        url: match chain {
            Chain::Mainnet => url,
            Chain::Goerli => "https://relay-goerli.flashbots.net:443"@,
        },
        client_name: relay_name,
    }
}

impl Client {
    /// Builds a client for the given chain: the URL is used as given on the
    /// main network and replaced by the staging relay on the test network.
    pub fn new(chain: Chain, url: &str, relay_name: &str) -> (r: Self)
        ensures
            r@ == spec_client(chain, url@, relay_name@),
    {
        match chain {
            Chain::Mainnet => Self::from_url(url, relay_name),
            Chain::Goerli => Self::from_url(
                "https://relay-goerli.flashbots.net:443",
                relay_name,
            ),
        }
    }

    /// Builds a client for one relay URL.
    pub fn from_url(url: &str, relay_name: &str) -> (r: Self)
        ensures
            r@.url == url@,
            r@.client_name == relay_name@,
    {
        Client { url: String::from_str(url), client_name: String::from_str(relay_name) }
    }

    /// Frames the submission request for one bundle: the remote call the
    /// relay expects, with the bundle as its single positional parameter.
    /// The caller signs and sends these bytes.
    pub fn send_bundle_body(&self, bundle: &BundleRequest, id: u64) -> (r: Vec<u8>)
        ensures
            r@ == spec_enc_rpc_request(id, bundle@),
    {
        crate::wire::encode_send_bundle_request(bundle, id)
    }

    /// Checks a relay's answer to a submission: the canonical success form
    /// yields the reported bundle hash; anything else is a decode failure,
    /// surfaced as a recoverable error.
    pub fn parse_send_bundle_response(&self, body: &Vec<u8>) -> (r: Result<
        SendBundleResponse,
        RpcError,
    >)
        ensures
            match r {
                Ok(resp) => spec_decode_rpc_response(body@) is Some && resp.bundle_hash@
                    == spec_decode_rpc_response(body@)->Some_0.1,
                Err(e) => spec_decode_rpc_response(body@) is None && e
                    == RpcError::ProtocolDecode,
            },
    {
        match crate::wire::decode_send_bundle_response(body) {
            Some((_id, hash)) => Ok(SendBundleResponse { bundle_hash: hash }),
            None => Err(RpcError::ProtocolDecode),
        }
    }
}

} // verus!
