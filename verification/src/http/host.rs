//! Where plain requests are sent on to.
use crate::text::{
    cat3, decimal, decimal_text, find_from, first_index, from_chars, lemma_first_index,
    lemma_split_append, split, split_on, texts_fall_apart_at_the_first, to_chars, views,
};
use vstd::prelude::*;

verus! {

/// A host without its port. An address in brackets ends at the bracket, and a
/// host with more than one colon has no port.
pub open spec fn without_port(host: Seq<char>) -> Seq<char> {
    if host.len() > 0 && host[0] == '[' {
        if first_index(host, ']') < host.len() {
            host.take(first_index(host, ']') + 1)
        } else {
            host
        }
    } else if split(host, ':').len() == 2 {
        split(host, ':')[0]
    } else {
        host
    }
}

/// A host without its port.
pub fn strip_port(host: &str) -> (out: String)
    ensures
        out@ == without_port(host@),
{
    let cs = to_chars(host);
    assert(cs@.skip(0) =~= cs@);
    if cs.len() > 0 && cs[0] == '[' {
        let end = find_from(&cs, 0, ']');
        if end < cs.len() {
            let name = from_chars(&cs, 0, end + 1);
            assert(name@ =~= host@.take(end + 1));
            return name;
        }
        return host.to_owned();
    }
    let parts = split_on(host, ':');
    assert(views(parts@).len() == parts@.len());
    if parts.len() == 2 {
        assert(views(parts@)[0] == parts@[0]@);
        return parts[0].clone();
    }
    host.to_owned()
}

/// Where the secure pages are, for a client that asked for `host`.
pub open spec fn authority_of(host: Option<Seq<char>>, ip: Seq<char>, port: u16) -> Seq<char> {
    let name = without_port(
        match host {
            Some(host) => host,
            None => ip,
        },
    );
    if port == 443 {
        name
    } else {
        name + ":"@ + decimal(port as nat)
    }
}

/// Where the secure pages are, for a client that asked for `host`, or for none
/// at all. `ip` and `port` are where they are served.
pub fn https_authority(host: Option<&str>, ip: &str, port: u16) -> (out: String)
    ensures
        out@ == authority_of(
            match host {
                Some(host) => Some(host@),
                None => None,
            },
            ip@,
            port,
        ),
{
    let name = match host {
        Some(host) => strip_port(host),
        None => strip_port(ip),
    };
    if port == 443 {
        name
    } else {
        let number = decimal_text(port as u64);
        cat3(name.as_str(), ":", number.as_str())
    }
}

/// Where a plain request is sent on to.
pub fn redirect_to_https(host: Option<&str>, ip: &str, port: u16, uri: &str) -> (out: String)
    ensures
        out@ == "https://"@ + authority_of(
            match host {
                Some(host) => Some(host@),
                None => None,
            },
            ip@,
            port,
        ) + uri@,
{
    let authority = https_authority(host, ip, port);
    cat3("https://", authority.as_str(), uri)
}

// ── Laws ─────────────────────────────────────────────────────────────────────

/// The port behind the name of a host is left out, and a name without one is taken
/// as it is.
pub proof fn ports_are_left_out(name: Seq<char>, port: Seq<char>)
    requires
        name.len() > 0,
        name[0] != '[',
        !name.contains(':'),
        !port.contains(':'),
    ensures
        without_port(name + ":"@ + port) == name,
        without_port(name) == name,
{
    reveal_strlit(":");
    let whole = name + ":"@ + port;
    assert(whole =~= name + seq![':'] + port);
    lemma_split_append(name, port, ':');
    lemma_first_index(name, ':');
    assert(split(name, ':') =~= seq![name]);
    assert(whole[0] == name[0]);
}

/// An address in square brackets is taken with them and without what follows.
pub proof fn brackets_hold_an_address(inner: Seq<char>, rest: Seq<char>)
    requires
        !inner.contains(']'),
    ensures
        without_port("["@ + inner + "]"@ + rest) == "["@ + inner + "]"@,
{
    reveal_strlit("[");
    reveal_strlit("]");
    let head = "["@ + inner;
    let whole = "["@ + inner + "]"@ + rest;
    assert(!head.contains(']')) by {
        if head.contains(']') {
            let k = choose|k: int| 0 <= k < head.len() && head[k] == ']';
            if k > 0 {
                assert(inner[k - 1] == ']');
            }
        }
    }
    assert(whole =~= head + seq![']'] + rest);
    texts_fall_apart_at_the_first(head, ']', rest);
    lemma_first_index(whole, ']');
    let n = first_index(whole, ']');
    assert(n == head.len()) by {
        assert(whole[head.len() as int] == ']');
        if n < head.len() {
            assert(head[n] == ']');
        }
    }
    assert(whole.take(n + 1) =~= "["@ + inner + "]"@);
}

/// One is sent to the host that was asked for, or else to its address, and to the
/// port unless it is the usual one.
pub proof fn redirects_go_to_the_host_that_was_asked(
    host: Option<Seq<char>>,
    ip: Seq<char>,
    port: u16,
)
    ensures
        ({
            let name = without_port(
                if host is Some {
                    host->Some_0
                } else {
                    ip
                },
            );
            &&& port == 443 ==> authority_of(host, ip, port) == name
            &&& port != 443 ==> authority_of(host, ip, port) == name + ":"@ + decimal(port as nat)
        }),
{
}

} // verus!
