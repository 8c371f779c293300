//! Multiaddresses: a host given as a sequence of protocol segments, such as
//! `/ip4/127.0.0.1/tcp/5001/http`.
use vstd::prelude::*;
use vstd::string::*;

use multiaddr::Protocol;

use crate::text::{decimal, ipv4_text, ipv6_text, push_decimal, push_ipv4, push_ipv6};

verus! {

/// One protocol segment of a multiaddress. The segments that this client
/// reads are kept with their values; any other segment is kept as the text
/// that the multiaddress library writes for it (such as `/p2p/Qm...`).
#[derive(Debug, Clone, PartialEq, Eq)]
pub enum Segment {
    /// `/ip4/a.b.c.d`, the four bytes of the address.
    IP4([u8; 4]),
    /// `/ip6/...`, the eight 16-bit groups of the address.
    IP6([u16; 8]),
    /// `/tcp/port`.
    Tcp(u16),
    /// `/http`.
    Http,
    /// `/https`.
    Https,
    /// Any other segment, by its text.
    Other(String),
}

/// A multiaddress: its segments in order.
#[derive(Debug, Clone, PartialEq, Eq)]
pub struct MultiAddr {
    pub segments: Vec<Segment>,
}

impl View for MultiAddr {
    type V = Seq<Segment>;

    open spec fn view(&self) -> Seq<Segment> {
        self.segments@
    }
}

/// What `Multiaddr::from_str` of the multiaddress library gives for a text:
/// the segments of the address, or the `description()` text of its error.
pub uninterp spec fn multiaddr_from_str(text: Seq<char>) -> Result<Seq<Segment>, Seq<char>>;

/// The text of one segment, as the multiaddress library writes it:
/// `/` and the protocol's name, then `/` and the value where there is one.
pub open spec fn segment_text(s: Segment) -> Seq<char> {
    match s {
        Segment::IP4(a) => seq!['/', 'i', 'p', '4', '/'] + ipv4_text(a@),
        Segment::IP6(g) => seq!['/', 'i', 'p', '6', '/'] + ipv6_text(g@),
        Segment::Tcp(port) => seq!['/', 't', 'c', 'p', '/'] + decimal(port as nat),
        Segment::Http => seq!['/', 'h', 't', 't', 'p'],
        Segment::Https => seq!['/', 'h', 't', 't', 'p', 's'],
        Segment::Other(t) => t@,
    }
}

/// The text of a multiaddress: the texts of its segments, one after another.
pub open spec fn multiaddr_text(s: Seq<Segment>) -> Seq<char>
    decreases s.len(),
{
    if s.len() == 0 {
        seq![]
    } else {
        multiaddr_text(s.drop_last()) + segment_text(s.last())
    }
}

/// The text of two multiaddresses one after the other is the text of the
/// first followed by the text of the second.
pub proof fn lemma_multiaddr_text_concat(a: Seq<Segment>, b: Seq<Segment>)
    ensures
        multiaddr_text(a + b) == multiaddr_text(a) + multiaddr_text(b),
    decreases b.len(),
{
    if b.len() == 0 {
        assert(a + b =~= a);
        assert(multiaddr_text(a) + multiaddr_text(b) =~= multiaddr_text(a));
    } else {
        lemma_multiaddr_text_concat(a, b.drop_last());
        assert((a + b).drop_last() =~= a + b.drop_last());
        assert(multiaddr_text(a + b) =~= multiaddr_text(a) + multiaddr_text(b));
    }
}

/// Adding a segment to a multiaddress adds that segment's whole text to the
/// address's text: any other segment adds exactly its own text, IPv4 adds
/// `/ip4/` and the dotted bytes, IPv6 `/ip6/` and the address's text, TCP
/// `/tcp/` and the port in decimal, and `http` and `https` their names.
pub proof fn lemma_multiaddr_text_push(s: Seq<Segment>, seg: Segment)
    ensures
        seg matches Segment::Other(t) ==> multiaddr_text(s.push(seg)) == multiaddr_text(s) + t@,
        seg matches Segment::IP4(a) ==> multiaddr_text(s.push(seg)) == multiaddr_text(s) + seq![
            '/',
            'i',
            'p',
            '4',
            '/',
        ] + decimal(a@[0] as nat) + seq!['.'] + decimal(a@[1] as nat) + seq!['.'] + decimal(
            a@[2] as nat,
        ) + seq!['.'] + decimal(a@[3] as nat),
        seg matches Segment::IP6(g) ==> multiaddr_text(s.push(seg)) == multiaddr_text(s) + seq![
            '/',
            'i',
            'p',
            '6',
            '/',
        ] + ipv6_text(g@),
        seg matches Segment::Tcp(port) ==> multiaddr_text(s.push(seg)) == multiaddr_text(s) + seq![
            '/',
            't',
            'c',
            'p',
            '/',
        ] + decimal(port as nat),
        seg is Http ==> multiaddr_text(s.push(seg)) == multiaddr_text(s) + seq!['/', 'h', 't', 't', 'p'],
        seg is Https ==> multiaddr_text(s.push(seg)) == multiaddr_text(s) + seq![
            '/',
            'h',
            't',
            't',
            'p',
            's',
        ],
{
    let more = s.push(seg);
    assert(more.drop_last() =~= s);
    if let Segment::IP4(a) = seg {
        assert(multiaddr_text(more) =~= multiaddr_text(s) + seq!['/', 'i', 'p', '4', '/'] + decimal(
            a@[0] as nat,
        ) + seq!['.'] + decimal(a@[1] as nat) + seq!['.'] + decimal(a@[2] as nat) + seq!['.']
            + decimal(a@[3] as nat));
    }
    assert(multiaddr_text(more) == multiaddr_text(s) + segment_text(seg));
}

/// Parses a multiaddress with `Multiaddr::from_str` of the multiaddress
/// library and reads its segments. The result is whatever that function gives
/// for the text, named `multiaddr_from_str`; an error is the text that the
/// error's `std::error::Error::description` gives.
#[verifier::external_body]
#[allow(deprecated)]
pub(crate) fn parse_multiaddr(text: &str) -> (res: Result<MultiAddr, String>)
    ensures
        match res {
            Ok(m) => multiaddr_from_str(text@) == Ok::<Seq<Segment>, Seq<char>>(m@),
            Err(e) => multiaddr_from_str(text@) == Err::<Seq<Segment>, Seq<char>>(e@),
        },
{
    match text.parse::<multiaddr::Multiaddr>() {
        Ok(m) => Ok(MultiAddr { segments: m.iter().map(|p| match p {
            Protocol::Ip4(a) => Segment::IP4(a.octets()),
            Protocol::Ip6(a) => Segment::IP6(a.segments()),
            Protocol::Tcp(port) => Segment::Tcp(port),
            Protocol::Http => Segment::Http,
            Protocol::Https => Segment::Https,
            other => Segment::Other(other.to_string()),
        }).collect() }),
        Err(e) => Err(std::error::Error::description(&e).to_string()),
    }
}

/// Appends the text of one segment to `out`.
fn push_segment(out: &mut String, s: &Segment)
    ensures
        final(out)@ == old(out)@ + segment_text(*s),
{
    match s {
        Segment::IP4(a) => {
            let tag = "/ip4/";
            proof { reveal_strlit("/ip4/"); }
            out.append(tag);
            push_ipv4(out, a);
        },
        Segment::IP6(g) => {
            let tag = "/ip6/";
            proof { reveal_strlit("/ip6/"); }
            out.append(tag);
            push_ipv6(out, g);
        },
        Segment::Tcp(port) => {
            let tag = "/tcp/";
            proof { reveal_strlit("/tcp/"); }
            out.append(tag);
            push_decimal(out, *port as u64);
        },
        Segment::Http => {
            let tag = "/http";
            proof { reveal_strlit("/http"); }
            out.append(tag);
        },
        Segment::Https => {
            let tag = "/https";
            proof { reveal_strlit("/https"); }
            out.append(tag);
        },
        Segment::Other(t) => {
            out.append(t.as_str());
        },
    }
    assert(final(out)@ =~= old(out)@ + segment_text(*s));
}

impl MultiAddr {
    /// The text of the multiaddress, such as `/ip4/127.0.0.1/tcp/5001/http`.
    pub fn to_string(&self) -> (res: String)
        ensures
            res@ == multiaddr_text(self@),
    {
        let mut out = String::new();
        let mut i: usize = 0;
        while i < self.segments.len()
            invariant
                i <= self.segments.len(),
                out@ == multiaddr_text(self@.subrange(0, i as int)),
            decreases self.segments.len() - i,
        {
            push_segment(&mut out, &self.segments[i]);
            proof {
                assert(self@.subrange(0, i + 1).drop_last() =~= self@.subrange(0, i as int));
            }
            i = i + 1;
        }
        assert(self@.subrange(0, i as int) =~= self@);
        out
    }
}

} // verus!
