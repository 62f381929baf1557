use vstd::prelude::*;

verus! {

/// How the credential of an ICE server is to be read.
#[derive(Clone, Copy, Debug, PartialEq, Eq, Structural)]
pub enum IceCredentialType {
    Unspecified,
    Password,
    Oauth,
}

/// A STUN or TURN server that the ICE agent may use to reach a peer.
#[derive(Clone, Debug)]
pub struct IceServer {
    pub urls: Vec<String>,
    pub username: String,
    pub credential: String,
    pub credential_type: IceCredentialType,
}

/// The public STUN server used when nothing else is configured.
pub open spec fn fallback_stun_url() -> Seq<char> {
    "stun:stun.l.google.com:19302"@
}

/// The ICE servers every peer connection falls back on: one public STUN
/// server, with no credentials and the default credential type.
pub fn fallback_ice_servers() -> (servers: Vec<IceServer>)
    ensures
        servers@.len() == 1,
        servers@[0].urls@.len() == 1,
        servers@[0].urls@[0]@ == fallback_stun_url(),
        servers@[0].username@ == Seq::<char>::empty(),
        servers@[0].credential@ == Seq::<char>::empty(),
        servers@[0].credential_type == IceCredentialType::Password,
{
    let mut urls: Vec<String> = Vec::new();
    urls.push("stun:stun.l.google.com:19302".to_owned());
    let mut servers: Vec<IceServer> = Vec::new();
    servers.push(IceServer {
        urls,
        username: String::new(),
        credential: String::new(),
        credential_type: IceCredentialType::Password,
    });
    servers
}

} // verus!
