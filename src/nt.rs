use vstd::prelude::*;

verus! {

/// What the picker shows of the feed connection.
#[derive(Clone, Copy, Debug, PartialEq, Eq, Structural)]
pub enum ConnectionStatus {
    Disconnected,
    Connected,
}

/// An update handed from a feed subscription to the consuming loop.
#[derive(Debug, Clone)]
pub enum NtUpdate {
    KV(String, String),
    ConnectionStatus(ConnectionStatus),
}

/// One receive from a feed subscription, as plain values: the topic names, the
/// value already written out as text, and a failed receive.
#[derive(Debug, Clone)]
pub enum FeedEvent {
    Announced(String),
    Unannounced(String),
    Updated(String, String),
    Error(String),
    Other,
}

/// Whether `c` has the Unicode White_Space property.
pub open spec fn is_white_space(c: char) -> bool {
    let u = c as u32;
    ||| 9 <= u <= 13
    ||| u == 32
    ||| u == 0x85
    ||| u == 0xA0
    ||| u == 0x1680
    ||| 0x2000 <= u <= 0x200A
    ||| u == 0x2028
    ||| u == 0x2029
    ||| u == 0x202F
    ||| u == 0x205F
    ||| u == 0x3000
}

pub open spec fn trim_start(s: Seq<char>) -> Seq<char>
    decreases s.len(),
{
    if s.len() > 0 && is_white_space(s[0]) {
        trim_start(s.drop_first())
    } else {
        s
    }
}

pub open spec fn trim_end(s: Seq<char>) -> Seq<char>
    decreases s.len(),
{
    if s.len() > 0 && is_white_space(s.last()) {
        trim_end(s.drop_last())
    } else {
        s
    }
}

/// `s` with its leading and trailing whitespace removed.
pub open spec fn trimmed(s: Seq<char>) -> Seq<char> {
    trim_end(trim_start(s))
}

/// Relies on `str::trim`: the text without its leading and trailing characters
/// of the Unicode White_Space property.
#[verifier::external_body]
fn trim_text(s: &str) -> (r: String)
    ensures
        r@ == trimmed(s@),
{
    s.trim().to_string()
}

/// The value a topic shows between its announcement and its first update.
pub open spec fn unset_value() -> Seq<char> {
    "None"@
}

pub open spec fn is_kv(u: NtUpdate, topic: Seq<char>, value: Seq<char>) -> bool {
    match u {
        NtUpdate::KV(t, v) => t@ == topic && v@ == value,
        NtUpdate::ConnectionStatus(_) => false,
    }
}

fn unset_update(topic: String) -> (r: NtUpdate)
    ensures
        is_kv(r, topic@, unset_value()),
{
    NtUpdate::KV(topic, "None".to_owned())
}

/// The update that the value subscription forwards for one receive: the unset
/// value for an announced topic, the trimmed text for an updated one, nothing
/// for anything else (a failed receive included: the loop goes on).
pub fn value_update(event: FeedEvent) -> (r: Option<NtUpdate>)
    ensures
        match event {
            FeedEvent::Announced(t) => r is Some && is_kv(r.unwrap(), t@, unset_value()),
            FeedEvent::Updated(t, v) => r is Some && is_kv(r.unwrap(), t@, trimmed(v@)),
            _ => r is None,
        },
{
    match event {
        FeedEvent::Announced(t) => Some(unset_update(t)),
        FeedEvent::Updated(t, v) => {
            let value = trim_text(v.as_str());
            Some(NtUpdate::KV(t, value))
        },
        _ => None,
    }
}

/// The update that the topic-discovery subscription forwards for one receive:
/// the unset value for an announced topic, nothing for anything else.
pub fn topic_update(event: FeedEvent) -> (r: Option<NtUpdate>)
    ensures
        match event {
            FeedEvent::Announced(t) => r is Some && is_kv(r.unwrap(), t@, unset_value()),
            _ => r is None,
        },
{
    match event {
        FeedEvent::Announced(t) => Some(unset_update(t)),
        _ => None,
    }
}

} // verus!
