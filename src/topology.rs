use vstd::prelude::*;

use crate::table::Table;

verus! {

/// Local channel name to the id of that channel's impersonation endpoint.
pub type ChannelMap = Table<u64>;

/// What the guild reported about one of its channels, with the lookups that
/// could fail already made: `category` is the parent category's display name and
/// `endpoint` the channel's impersonation endpoint, each `None` where it could not
/// be had.
pub struct GuildChannel {
    pub name: String,
    pub is_text: bool,
    pub category: Option<String>,
    pub endpoint: Option<u64>,
}

/// How to obtain a channel's impersonation endpoint.
pub enum EndpointPlan {
    /// Use this existing endpoint.
    Reuse(u64),
    /// Create one endpoint with this name.
    Create(String),
}

/// Only standard text channels that sit in a category are bridged.
pub open spec fn bridgeable(is_text: bool, has_category: bool) -> bool {
    is_text && has_category
}

/// A channel takes part in the topology once its category and endpoint are known.
pub open spec fn bridged(c: GuildChannel) -> bool {
    bridgeable(c.is_text, c.category is Some) && c.endpoint is Some
}

/// The name given to an endpoint that the bridge creates for a channel.
pub open spec fn endpoint_name(channel: Seq<char>) -> Seq<char> {
    "irc_bridge_"@ + channel
}

/// Category name to channel map, for the channels `s` in order; a later channel
/// of the same name in the same category replaces an earlier one.
pub open spec fn topology_of(s: Seq<GuildChannel>) -> Map<Seq<char>, Map<Seq<char>, u64>>
    decreases s.len(),
{
    if s.len() == 0 {
        Map::empty()
    } else {
        let t = topology_of(s.drop_last());
        let c = s.last();
        if bridged(c) {
            let cat = c.category.unwrap()@;
            let inner = if t.contains_key(cat) { t[cat] } else { Map::empty() };
            t.insert(cat, inner.insert(c.name@, c.endpoint.unwrap()))
        } else {
            t
        }
    }
}

/// Whether a channel is to be given an endpoint and mapped.
pub fn is_bridgeable(is_text: bool, has_category: bool) -> (r: bool)
    ensures
        r == bridgeable(is_text, has_category),
{
    is_text && has_category
}

/// Reuses the first existing endpoint of a channel, or asks for one to be created.
pub fn plan_endpoint(channel_name: &String, existing: &Vec<u64>) -> (r: EndpointPlan)
    ensures
        existing@.len() > 0 ==> r == EndpointPlan::Reuse(existing@[0]),
        existing@.len() == 0 ==> (match r {
            EndpointPlan::Create(n) => n@ == endpoint_name(channel_name@),
            EndpointPlan::Reuse(_) => false,
        }),
{
    if existing.len() > 0 {
        EndpointPlan::Reuse(existing[0])
    } else {
        let mut n = String::from_str("irc_bridge_");
        n.append(channel_name.as_str());
        EndpointPlan::Create(n)
    }
}

/// The two-level mapping from category to channel to endpoint.
pub struct Topology {
    categories: Table<ChannelMap>,
}

impl Topology {
    pub closed spec fn wf(&self) -> bool {
        &&& self.categories.wf()
        &&& forall|k: Seq<char>| #[trigger] self.categories@.contains_key(k) ==> self.categories@[k].wf()
    }

    pub closed spec fn view(&self) -> Map<Seq<char>, Map<Seq<char>, u64>> {
        Map::new(
            |k: Seq<char>| self.categories@.contains_key(k),
            |k: Seq<char>| self.categories@[k]@,
        )
    }

    /// The category names, in the order they were first met.
    pub closed spec fn category_seq(&self) -> Seq<Seq<char>> {
        self.categories.key_seq()
    }

    pub fn new() -> (r: Self)
        ensures
            r.wf(),
            r@ == Map::<Seq<char>, Map<Seq<char>, u64>>::empty(),
    {
        let r = Topology { categories: Table::new() };
        assert(r@ =~= Map::<Seq<char>, Map<Seq<char>, u64>>::empty());
        r
    }

    /// Maps `channel` to `endpoint` under `category`, creating the category's
    /// channel map on first use.
    pub fn add_channel(&mut self, category: String, channel: String, endpoint: u64)
        requires
            old(self).wf(),
        ensures
            final(self).wf(),
            final(self)@ == old(self)@.insert(
                category@,
                (if old(self)@.contains_key(category@) {
                    old(self)@[category@]
                } else {
                    Map::empty()
                }).insert(channel@, endpoint),
            ),
    {
        let ghost pre = self@;
        let ghost cat = category@;
        match self.categories.find(&category) {
            Some(i) => {
                let mut m: ChannelMap = Table::new();
                self.categories.swap_value_at(i, &mut m);
                m.insert(channel, endpoint);
                self.categories.swap_value_at(i, &mut m);
            },
            None => {
                let mut m: ChannelMap = Table::new();
                m.insert(channel, endpoint);
                self.categories.insert(category, m);
            },
        }
        assert(self@ =~= pre.insert(
            cat,
            (if pre.contains_key(cat) { pre[cat] } else { Map::empty() }).insert(channel@, endpoint),
        ));
    }

    /// How many categories are mapped.
    pub fn len(&self) -> (r: usize)
        requires
            self.wf(),
        ensures
            r == self.category_seq().len(),
    {
        self.categories.len()
    }

    /// The name of the `i`-th category.
    pub fn category_at(&self, i: usize) -> (r: &String)
        requires
            self.wf(),
            i < self.category_seq().len(),
        ensures
            r@ == self.category_seq()[i as int],
    {
        self.categories.key_at(i)
    }

    /// The channel map of the `i`-th category.
    pub fn channels_at(&self, i: usize) -> (r: &ChannelMap)
        requires
            self.wf(),
            i < self.category_seq().len(),
        ensures
            r.wf(),
            self@.contains_key(self.category_seq()[i as int]),
            r@ == self@[self.category_seq()[i as int]],
    {
        self.categories.value_at(i)
    }

    /// The channel map of a category, if it is mapped.
    pub fn channels_of(&self, category: &String) -> (r: Option<&ChannelMap>)
        requires
            self.wf(),
        ensures
            match r {
                Some(m) => m.wf() && self@.contains_key(category@) && m@ == self@[category@],
                None => !self@.contains_key(category@),
            },
    {
        self.categories.get(category)
    }

    /// Every category is listed once by `category_seq`.
    pub proof fn lemma_category_seq(&self)
        requires
            self.wf(),
        ensures
            self.category_seq().no_duplicates(),
            self.category_seq().to_set() == self@.dom(),
    {
        self.categories.lemma_key_seq();
        assert(self@.dom() =~= self.categories@.dom());
    }
}

/// Groups the bridged channels of a guild by category.
pub fn build_topology(channels: &Vec<GuildChannel>) -> (r: Topology)
    ensures
        r.wf(),
        r@ == topology_of(channels@),
{
    let mut r = Topology::new();
    let mut i: usize = 0;
    while i < channels.len()
        invariant
            i <= channels@.len(),
            r.wf(),
            r@ == topology_of(channels@.take(i as int)),
        decreases channels@.len() - i,
    {
        let c = &channels[i];
        assert(channels@.take(i as int + 1).drop_last() =~= channels@.take(i as int));
        if is_bridgeable(c.is_text, c.category.is_some()) {
            match (&c.category, c.endpoint) {
                (Some(cat), Some(e)) => {
                    r.add_channel(cat.clone(), c.name.clone(), e);
                },
                _ => {},
            }
        }
        i = i + 1;
    }
    assert(channels@.take(channels@.len() as int) =~= channels@);
    r
}

/// Every text channel whose category and endpoint were resolved is mapped under
/// its category, to exactly one endpoint.
pub proof fn lemma_bridged_channel_mapped(s: Seq<GuildChannel>, i: int)
    requires
        0 <= i < s.len(),
        bridged(s[i]),
    ensures
        topology_of(s).contains_key(s[i].category.unwrap()@),
        topology_of(s)[s[i].category.unwrap()@].contains_key(s[i].name@),
    decreases s.len(),
{
    if i < s.len() - 1 {
        lemma_bridged_channel_mapped(s.drop_last(), i);
    }
}

/// Everything the topology maps under a category comes from a bridged channel of
/// that very category, with that name and endpoint.
pub proof fn lemma_mapped_from_own_category(s: Seq<GuildChannel>, cat: Seq<char>, name: Seq<char>)
    requires
        topology_of(s).contains_key(cat),
        topology_of(s)[cat].contains_key(name),
    ensures
        exists|i: int|
            0 <= i < s.len() && bridged(#[trigger] s[i]) && s[i].category.unwrap()@ == cat
                && s[i].name@ == name && s[i].endpoint.unwrap() == topology_of(s)[cat][name],
    decreases s.len(),
{
    let t = topology_of(s.drop_last());
    let c = s.last();
    let j = s.len() - 1;
    if bridged(c) && c.category.unwrap()@ == cat && c.name@ == name {
        assert(s[j] == c);
    } else {
        lemma_mapped_from_own_category(s.drop_last(), cat, name);
        let i = choose|i: int|
            0 <= i < s.drop_last().len() && bridged(#[trigger] s.drop_last()[i])
                && s.drop_last()[i].category.unwrap()@ == cat && s.drop_last()[i].name@ == name
                && s.drop_last()[i].endpoint.unwrap() == t[cat][name];
        assert(s[i] == s.drop_last()[i]);
    }
}

} // verus!
