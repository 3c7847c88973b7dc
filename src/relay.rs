use vstd::prelude::*;

use crate::table::Table;
use crate::topology::{bridged, topology_of, ChannelMap, GuildChannel};

verus! {

/// The remote channel that mirrors a local channel.
pub open spec fn remote_channel_of(local: Seq<char>) -> Seq<char> {
    "##"@ + local
}

/// The local channel a remote channel mirrors, if its name carries the marker.
pub open spec fn local_channel_of(remote: Seq<char>) -> Option<Seq<char>> {
    if remote.len() >= 2 && remote[0] == '#' && remote[1] == '#' {
        Some(remote.subrange(2, remote.len() as int))
    } else {
        None
    }
}

/// The line sent to the remote channel for a message of the platform.
pub open spec fn outbound_text(author: Seq<char>, content: Seq<char>) -> Seq<char> {
    author + ": "@ + content
}

/// The sender shown for a remote message that names no nickname.
pub open spec fn server_label() -> Seq<char> {
    "Server"@
}

/// The remote channel that mirrors `local`: `"##"` followed by its name.
pub fn remote_channel(local: &String) -> (r: String)
    ensures
        r@ == remote_channel_of(local@),
{
    let mut r = String::from_str("##");
    r.append(local.as_str());
    r
}

/// Strips the `"##"` marker from a remote channel name.
pub fn local_channel(remote: &String) -> (r: Option<String>)
    ensures
        r matches Some(l) ==> local_channel_of(remote@) == Some(l@),
        r is None ==> local_channel_of(remote@) is None,
{
    let s = remote.as_str();
    let n = s.unicode_len();
    if n >= 2 && s.get_char(0) == '#' && s.get_char(1) == '#' {
        let rest = s.substring_char(2, n);
        Some(rest.to_owned())
    } else {
        None
    }
}

/// A message event of the platform, as the router needs it.
pub struct PlatformMessage {
    /// Display name of the channel the message was posted in.
    pub channel_name: String,
    /// Display name of that channel's category, where it has one.
    pub category: Option<String>,
    /// Whether the channel has any impersonation endpoint: without one the bridge
    /// is not active there.
    pub channel_has_endpoints: bool,
    /// Whether the bridge's own account wrote the message.
    pub is_own: bool,
    /// Whether the author is flagged as an automated account; posts made through
    /// an impersonation endpoint are.
    pub author_is_bot: bool,
    pub author_name: String,
    pub content: String,
}

/// A line to send to one remote channel over one category's connection.
pub struct Outbound {
    /// The category, that is the remote server, whose connection carries the line.
    pub server: String,
    pub channel: String,
    pub text: String,
}

/// Whether a platform message may be relayed at all: the bridge is active in its
/// channel, and neither the bridge nor an automated account wrote it.
pub open spec fn relayable(m: PlatformMessage) -> bool {
    m.channel_has_endpoints && !m.is_own && !m.author_is_bot && m.category is Some
}

/// The outbound line for a platform message, given the categories whose
/// connection is registered: `(server, channel, text)`.
pub open spec fn outbound_of(registered: Set<Seq<char>>, m: PlatformMessage) -> Option<
    (Seq<char>, Seq<char>, Seq<char>),
> {
    if relayable(m) && registered.contains(m.category.unwrap()@) {
        Some(
            (
                m.category.unwrap()@,
                remote_channel_of(m.channel_name@),
                outbound_text(m.author_name@, m.content@),
            ),
        )
    } else {
        None
    }
}

/// The lines sent for a sequence of platform messages, in order.
pub open spec fn outbound_stream(registered: Set<Seq<char>>, s: Seq<PlatformMessage>) -> Seq<
    (Seq<char>, Seq<char>, Seq<char>),
>
    decreases s.len(),
{
    if s.len() == 0 {
        Seq::empty()
    } else {
        let prev = outbound_stream(registered, s.drop_last());
        match outbound_of(registered, s.last()) {
            Some(line) => prev.push(line),
            None => prev,
        }
    }
}

/// Category name to the send handle of that category's remote connection. A
/// category is registered at most once; a later registration does not replace it.
pub struct RoutingTable<H> {
    handles: Table<H>,
}

impl<H> RoutingTable<H> {
    pub closed spec fn wf(&self) -> bool {
        self.handles.wf()
    }

    pub closed spec fn view(&self) -> Map<Seq<char>, H> {
        self.handles@
    }

    pub fn new() -> (r: Self)
        ensures
            r.wf(),
            r@ == Map::<Seq<char>, H>::empty(),
    {
        RoutingTable { handles: Table::new() }
    }

    /// Registers `handle` for `category` unless one is registered already; says
    /// whether it did.
    pub fn register(&mut self, category: String, handle: H) -> (r: bool)
        requires
            old(self).wf(),
        ensures
            final(self).wf(),
            r == !old(self)@.contains_key(category@),
            final(self)@ == (if r { old(self)@.insert(category@, handle) } else { old(self)@ }),
    {
        self.handles.insert_if_absent(category, handle)
    }

    /// The send handle registered for `category`.
    pub fn handle(&self, category: &String) -> (r: Option<&H>)
        requires
            self.wf(),
        ensures
            match r {
                Some(h) => self@.contains_key(category@) && *h == self@[category@],
                None => !self@.contains_key(category@),
            },
    {
        self.handles.get(category)
    }
}

/// Decides what becomes of a platform message: `None` when it is not relayed
/// (the bridge is inactive in its channel, the bridge or an automated account
/// wrote it, its channel has no category, or the category has no connection
/// yet), else the handle of the category's connection and the line to send
/// through it.
pub fn route_platform_message<'a, H>(table: &'a RoutingTable<H>, m: &PlatformMessage) -> (r:
    Option<(&'a H, Outbound)>)
    requires
        table.wf(),
    ensures
        r is Some == outbound_of(table@.dom(), *m) is Some,
        r matches Some((h, o)) ==> {
            &&& *h == table@[m.category.unwrap()@]
            &&& outbound_of(table@.dom(), *m) == Some((o.server@, o.channel@, o.text@))
        },
{
    if !m.channel_has_endpoints || m.is_own || m.author_is_bot {
        return None;
    }
    match &m.category {
        None => None,
        Some(cat) => match table.handle(cat) {
            None => None,
            Some(h) => {
                let mut text = m.author_name.clone();
                text.append(": ");
                text.append(m.content.as_str());
                let o = Outbound {
                    server: cat.clone(),
                    channel: remote_channel(&m.channel_name),
                    text,
                };
                Some((h, o))
            },
        },
    }
}

/// What a remote connection delivered, as the relay needs it.
pub enum RemoteCommand {
    /// A text message to a channel.
    Privmsg { target: String, body: String },
    /// Anything else.
    Other,
}

pub struct RemoteMessage {
    /// The sender's nickname, where the message has one.
    pub source_nickname: Option<String>,
    pub command: RemoteCommand,
}

/// A post to make through a channel's impersonation endpoint.
pub struct Post {
    pub endpoint: u64,
    pub username: String,
    pub content: String,
}

/// The post for a remote message, given the channel map of its connection:
/// `(endpoint, username, content)`.
pub open spec fn post_of(channels: Map<Seq<char>, u64>, m: RemoteMessage) -> Option<
    (u64, Seq<char>, Seq<char>),
> {
    match m.command {
        RemoteCommand::Privmsg { target, body } => match local_channel_of(target@) {
            Some(local) => if channels.contains_key(local) {
                Some(
                    (
                        channels[local],
                        match m.source_nickname {
                            Some(n) => n@,
                            None => server_label(),
                        },
                        body@,
                    ),
                )
            } else {
                None
            },
            None => None,
        },
        RemoteCommand::Other => None,
    }
}

/// Decides what becomes of a message from a remote connection: a channel text
/// message to a mapped channel is posted, unchanged, through that channel's
/// endpoint under the sender's nickname (or `"Server"`); everything else is
/// ignored.
pub fn route_remote_message(channels: &ChannelMap, m: &RemoteMessage) -> (r: Option<Post>)
    requires
        channels.wf(),
    ensures
        r is Some == post_of(channels@, *m) is Some,
        r matches Some(p) ==> post_of(channels@, *m) == Some((p.endpoint, p.username@, p.content@)),
{
    match &m.command {
        RemoteCommand::Other => None,
        RemoteCommand::Privmsg { target, body } => match local_channel(target) {
            None => None,
            Some(local) => match channels.get(&local) {
                None => None,
                Some(e) => {
                    let username = match &m.source_nickname {
                        Some(n) => n.clone(),
                        None => String::from_str("Server"),
                    };
                    Some(Post { endpoint: *e, username, content: body.clone() })
                },
            },
        },
    }
}

/// Loop freedom: nothing the bridge wrote, and nothing an automated account
/// wrote (which includes every post made through an impersonation endpoint), is
/// ever sent to a remote network.
pub proof fn lemma_loop_free(registered: Set<Seq<char>>, m: PlatformMessage)
    requires
        outbound_of(registered, m) is Some,
    ensures
        !m.is_own,
        !m.author_is_bot,
{
}

/// A message whose category has no registered connection is dropped.
pub proof fn lemma_unregistered_dropped(registered: Set<Seq<char>>, m: PlatformMessage)
    requires
        m.category matches Some(c) && !registered.contains(c@),
    ensures
        outbound_of(registered, m) is None,
{
}

proof fn lemma_stream_prefix(registered: Set<Seq<char>>, s: Seq<PlatformMessage>, a: int, b: int)
    requires
        0 <= a <= b <= s.len(),
    ensures
        outbound_stream(registered, s.take(a)).len() <= outbound_stream(registered, s.take(b)).len(),
        forall|k: int|
            0 <= k < outbound_stream(registered, s.take(a)).len() ==> #[trigger] outbound_stream(
                registered,
                s.take(a),
            )[k] == outbound_stream(registered, s.take(b))[k],
    decreases b - a,
{
    if a < b {
        lemma_stream_prefix(registered, s, a, b - 1);
        assert(s.take(b).drop_last() =~= s.take(b - 1));
    }
}

proof fn lemma_stream_last(registered: Set<Seq<char>>, s: Seq<PlatformMessage>, i: int)
    requires
        0 <= i < s.len(),
        outbound_of(registered, s[i]) is Some,
    ensures
        outbound_stream(registered, s.take(i + 1)) == outbound_stream(registered, s.take(i)).push(
            outbound_of(registered, s[i]).unwrap(),
        ),
{
    assert(s.take(i + 1).drop_last() =~= s.take(i));
    assert(s.take(i + 1).last() == s[i]);
}

/// Order is kept: when two platform messages are both relayed, the line of the
/// earlier one is sent before the line of the later one.
pub proof fn lemma_outbound_order_kept(
    registered: Set<Seq<char>>,
    s: Seq<PlatformMessage>,
    i: int,
    j: int,
)
    requires
        0 <= i < j < s.len(),
        outbound_of(registered, s[i]) is Some,
        outbound_of(registered, s[j]) is Some,
    ensures
        exists|p: int, q: int|
            0 <= p < q < outbound_stream(registered, s).len() && #[trigger] outbound_stream(
                registered,
                s,
            )[p] == outbound_of(registered, s[i]).unwrap() && #[trigger] outbound_stream(
                registered,
                s,
            )[q] == outbound_of(registered, s[j]).unwrap(),
{
    let n = s.len() as int;
    lemma_stream_last(registered, s, i);
    lemma_stream_last(registered, s, j);
    lemma_stream_prefix(registered, s, i + 1, j);
    lemma_stream_prefix(registered, s, i + 1, n);
    lemma_stream_prefix(registered, s, j + 1, n);
    assert(s.take(n) =~= s);
    let p = outbound_stream(registered, s.take(i + 1)).len() - 1;
    let q = outbound_stream(registered, s.take(j + 1)).len() - 1;
    assert(outbound_stream(registered, s)[p] == outbound_stream(registered, s.take(i + 1))[p]);
    assert(outbound_stream(registered, s)[q] == outbound_stream(registered, s.take(j + 1))[q]);
}

/// A connection only ever posts into its own category: whatever the worker of
/// category `cat` posts goes to the endpoint of a bridged channel of `cat` whose
/// remote channel is the message's target.
pub proof fn lemma_posts_stay_in_category(s: Seq<GuildChannel>, cat: Seq<char>, m: RemoteMessage)
    requires
        topology_of(s).contains_key(cat),
        post_of(topology_of(s)[cat], m) is Some,
    ensures
        exists|i: int|
            0 <= i < s.len() && bridged(#[trigger] s[i]) && s[i].category.unwrap()@ == cat
                && s[i].endpoint.unwrap() == post_of(topology_of(s)[cat], m).unwrap().0
                && (m.command matches RemoteCommand::Privmsg { target, .. } && target@
                == remote_channel_of(s[i].name@)),
{
    reveal_strlit("##");
    if let RemoteCommand::Privmsg { target, body } = m.command {
        let t = target@;
        let local = local_channel_of(t).unwrap();
        assert(t =~= "##"@ + local);
        crate::topology::lemma_mapped_from_own_category(s, cat, local);
    }
}

} // verus!
