use vstd::prelude::*;

use crate::relay::{remote_channel, remote_channel_of};
use crate::topology::ChannelMap;

verus! {

/// The bridge's settings, read once at startup.
pub struct Opt {
    /// Nickname on the remote networks.
    pub nickname: String,
    /// Token of the platform's bot account.
    pub token: String,
    /// Id of the guild that is bridged.
    pub guild: u64,
}

/// What one remote connection is opened with.
pub struct ConnectionPlan {
    pub nickname: String,
    /// Nicknames to fall back on, in order, when the first is taken.
    pub alt_nicks: Vec<String>,
    /// The server to connect to: the category's display name.
    pub server: String,
    /// The remote channels to join.
    pub channels: Vec<String>,
}

/// The connection for one category: the configured nickname with three fallbacks
/// that add one, two and three underscores; the category's name as server; and
/// the remote channel of each mapped local channel.
pub fn connection_plan(nickname: &String, category: &String, channels: &ChannelMap) -> (r:
    ConnectionPlan)
    requires
        channels.wf(),
    ensures
        r.nickname@ == nickname@,
        r.alt_nicks@.len() == 3,
        r.alt_nicks@[0]@ == nickname@ + "_"@,
        r.alt_nicks@[1]@ == nickname@ + "__"@,
        r.alt_nicks@[2]@ == nickname@ + "___"@,
        r.server@ == category@,
        r.channels@.len() == channels.key_seq().len(),
        forall|i: int|
            0 <= i < r.channels@.len() ==> #[trigger] r.channels@[i]@ == remote_channel_of(
                channels.key_seq()[i],
            ),
{
    let mut alt_nicks: Vec<String> = Vec::new();
    let mut a = nickname.clone();
    a.append("_");
    alt_nicks.push(a);
    let mut b = nickname.clone();
    b.append("__");
    alt_nicks.push(b);
    let mut c = nickname.clone();
    c.append("___");
    alt_nicks.push(c);
    let mut joined: Vec<String> = Vec::new();
    let n = channels.len();
    let mut i: usize = 0;
    while i < n
        invariant
            channels.wf(),
            n == channels.key_seq().len(),
            i <= n,
            joined@.len() == i,
            forall|j: int|
                0 <= j < i ==> #[trigger] joined@[j]@ == remote_channel_of(channels.key_seq()[j]),
        decreases n - i,
    {
        joined.push(remote_channel(channels.key_at(i)));
        i = i + 1;
    }
    ConnectionPlan {
        nickname: nickname.clone(),
        alt_nicks,
        server: category.clone(),
        channels: joined,
    }
}

} // verus!
