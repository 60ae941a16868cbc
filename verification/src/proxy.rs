//! Proxy negotiation messages: the HTTP CONNECT request and the SOCKS5
//! greeting, authentication and connect exchanges, each built and checked
//! byte for byte; a transport driver writes and reads them.

use vstd::prelude::*;
use vstd::string::StringSliceAdditionalSpecFns;

use crate::base64::{base64_encode, spec_base64};
use crate::codec::{chars_bytes, crlf_bytes, spec_status_code};
use crate::error::RequestError;
use crate::response::spec_code_bytes;
use crate::url::dec_bytes;

verus! {

/// `host:port` in bytes.
pub open spec fn spec_host_port(host: Seq<char>, port: u16) -> Seq<u8> {
    chars_bytes(host) + seq![58u8] + dec_bytes(port as int)
}

/// The CONNECT message asking a proxy to open a raw tunnel, with Basic
/// credentials when given.
pub open spec fn spec_connect_request(
    host: Seq<char>,
    port: u16,
    auth: Option<(Seq<char>, Seq<char>)>,
) -> Seq<u8> {
    chars_bytes("CONNECT "@) + spec_host_port(host, port) + chars_bytes(" HTTP/1.1"@)
        + crlf_bytes() + chars_bytes("Host: "@) + spec_host_port(host, port) + crlf_bytes() + (
    match auth {
        Some((user, pass)) => chars_bytes("Proxy-Authorization: Basic "@) + spec_base64(
            chars_bytes(user) + seq![58u8] + chars_bytes(pass),
        ) + crlf_bytes(),
        None => Seq::empty(),
    }) + crlf_bytes()
}

/// Builds the CONNECT message for a tunnel to `host:port`.
pub fn build_connect_request(host: &str, port: u16, auth: Option<(&str, &str)>) -> (r: Vec<u8>)
    ensures
        r@ == spec_connect_request(
            host@,
            port,
            match auth {
                Some((u, p)) => Some((u@, p@)),
                None => None,
            },
        ),
{
    let mut out: Vec<u8> = Vec::new();
    out.extend_from_slice("CONNECT ".as_bytes());
    out.extend_from_slice(host.as_bytes());
    out.push(58);
    push_port(&mut out, port);
    out.extend_from_slice(" HTTP/1.1".as_bytes());
    out.push(13);
    out.push(10);
    out.extend_from_slice("Host: ".as_bytes());
    out.extend_from_slice(host.as_bytes());
    out.push(58);
    push_port(&mut out, port);
    out.push(13);
    out.push(10);
    if let Some((user, pass)) = auth {
        out.extend_from_slice("Proxy-Authorization: Basic ".as_bytes());
        let mut cred: Vec<u8> = Vec::new();
        cred.extend_from_slice(user.as_bytes());
        cred.push(58);
        cred.extend_from_slice(pass.as_bytes());
        proof {
            assert(cred@ =~= chars_bytes(user@) + seq![58u8] + chars_bytes(pass@));
        }
        let encoded: Vec<u8> = base64_encode(cred.as_slice());
        out.extend_from_slice(encoded.as_slice());
        out.push(13);
        out.push(10);
    }
    out.push(13);
    out.push(10);
    proof {
        assert(out@ =~= spec_connect_request(
            host@,
            port,
            match auth {
                Some((u, p)) => Some((u@, p@)),
                None => None,
            },
        ));
    }
    out
}

/// Appends the decimal digits of a port.
fn push_port(out: &mut Vec<u8>, port: u16)
    ensures
        final(out)@ == old(out)@ + dec_bytes(port as int),
{
    let s: String = crate::url::u16_to_string(port);
    out.extend_from_slice(s.as_str().as_bytes());
}

/// A proxy's answer to CONNECT grants the tunnel exactly when its status
/// code is 2xx; anything else is a proxy handshake failure.
pub fn check_connect_response(head: &[u8]) -> (r: Result<(), RequestError>)
    ensures
        r is Ok <==> 200 <= spec_status_code(spec_code_bytes(head@)) < 300,
        r is Err ==> r == Err::<(), RequestError>(RequestError::ProxyHandshake),
{
    let parsed = crate::response::HttpResponseBinary::from(head);
    if 200 <= parsed.status_code && parsed.status_code < 300 {
        Ok(())
    } else {
        Err(RequestError::ProxyHandshake)
    }
}

/// The SOCKS5 greeting: no-auth alone, or no-auth plus username/password.
pub open spec fn spec_socks5_greeting(with_auth: bool) -> Seq<u8> {
    if with_auth {
        seq![5u8, 2u8, 0u8, 2u8]
    } else {
        seq![5u8, 1u8, 0u8]
    }
}

/// Builds the SOCKS5 greeting.
pub fn socks5_greeting(with_auth: bool) -> (r: Vec<u8>)
    ensures
        r@ == spec_socks5_greeting(with_auth),
{
    let mut out: Vec<u8> = Vec::new();
    out.push(5);
    if with_auth {
        out.push(2);
        out.push(0);
        out.push(2);
        proof {
            assert(out@ =~= seq![5u8, 2u8, 0u8, 2u8]);
        }
    } else {
        out.push(1);
        out.push(0);
        proof {
            assert(out@ =~= seq![5u8, 1u8, 0u8]);
        }
    }
    out
}

/// Reads the greeting reply: version 5 and a method this client offered;
/// the no-such-method answer or anything else is a handshake failure.
pub fn socks5_check_greeting_reply(reply: &[u8]) -> (r: Result<u8, RequestError>)
    ensures
        r is Ok <==> (reply@.len() >= 2 && reply@[0] == 5 && (reply@[1] == 0 || reply@[1] == 2)),
        match r {
            Ok(m) => reply@.len() >= 2 && reply@[0] == 5 && reply@[1] == m && (m == 0 || m == 2),
            Err(e) => e == RequestError::ProxyHandshake,
        },
{
    if reply.len() < 2 {
        return Err(RequestError::ProxyHandshake);
    }
    if reply[0] != 5 {
        return Err(RequestError::ProxyHandshake);
    }
    let m: u8 = reply[1];
    if m == 0 || m == 2 {
        Ok(m)
    } else {
        Err(RequestError::ProxyHandshake)
    }
}

/// The username/password sub-negotiation message.
pub open spec fn spec_socks5_auth(user: Seq<u8>, pass: Seq<u8>) -> Seq<u8> {
    seq![1u8, user.len() as u8] + user + seq![pass.len() as u8] + pass
}

/// Builds the username/password message; names longer than 255 bytes do not
/// fit the wire format.
pub fn socks5_auth_request(user: &str, pass: &str) -> (r: Result<Vec<u8>, RequestError>)
    ensures
        match r {
            Ok(v) => chars_bytes(user@).len() <= 255 && chars_bytes(pass@).len() <= 255 && v@
                == spec_socks5_auth(chars_bytes(user@), chars_bytes(pass@)),
            Err(e) => e == RequestError::ProxyHandshake && (chars_bytes(user@).len() > 255
                || chars_bytes(pass@).len() > 255),
        },
{
    let ub: &[u8] = user.as_bytes();
    let pb: &[u8] = pass.as_bytes();
    if ub.len() > 255 || pb.len() > 255 {
        return Err(RequestError::ProxyHandshake);
    }
    let mut out: Vec<u8> = Vec::new();
    out.push(1);
    out.push(ub.len() as u8);
    out.extend_from_slice(ub);
    out.push(pb.len() as u8);
    out.extend_from_slice(pb);
    proof {
        assert(out@ =~= spec_socks5_auth(ub@, pb@));
    }
    Ok(out)
}

/// Reads the sub-negotiation reply: status 0 grants access.
pub fn socks5_check_auth_reply(reply: &[u8]) -> (r: Result<(), RequestError>)
    ensures
        r is Ok <==> (reply@.len() >= 2 && reply@[1] == 0),
        r is Err ==> r == Err::<(), RequestError>(RequestError::ProxyHandshake),
{
    if reply.len() >= 2 && reply[1] == 0 {
        Ok(())
    } else {
        Err(RequestError::ProxyHandshake)
    }
}

/// The CONNECT command naming the target as a domain with its port.
pub open spec fn spec_socks5_connect(host: Seq<u8>, port: u16) -> Seq<u8> {
    seq![5u8, 1u8, 0u8, 3u8, host.len() as u8] + host + seq![
        (port as int / 256) as u8,
        (port as int % 256) as u8,
    ]
}

/// Builds the CONNECT command for `host:port`, sending the host as a domain
/// name; hosts longer than 255 bytes do not fit the wire format.
pub fn socks5_connect_request(host: &str, port: u16) -> (r: Result<Vec<u8>, RequestError>)
    ensures
        match r {
            Ok(v) => chars_bytes(host@).len() <= 255 && v@ == spec_socks5_connect(
                chars_bytes(host@),
                port,
            ),
            Err(e) => e == RequestError::ProxyHandshake && chars_bytes(host@).len() > 255,
        },
{
    let hb: &[u8] = host.as_bytes();
    if hb.len() > 255 {
        return Err(RequestError::ProxyHandshake);
    }
    let mut out: Vec<u8> = Vec::new();
    out.push(5);
    out.push(1);
    out.push(0);
    out.push(3);
    out.push(hb.len() as u8);
    out.extend_from_slice(hb);
    out.push((port / 256) as u8);
    out.push((port % 256) as u8);
    proof {
        assert(out@ =~= spec_socks5_connect(hb@, port));
    }
    Ok(out)
}

/// Reads the CONNECT reply: version 5 with status 0 opens the tunnel.
pub fn socks5_check_connect_reply(reply: &[u8]) -> (r: Result<(), RequestError>)
    ensures
        r is Ok <==> (reply@.len() >= 2 && reply@[0] == 5 && reply@[1] == 0),
        r is Err ==> r == Err::<(), RequestError>(RequestError::ProxyHandshake),
{
    if reply.len() >= 2 && reply[0] == 5 && reply[1] == 0 {
        Ok(())
    } else {
        Err(RequestError::ProxyHandshake)
    }
}

} // verus!
