use discord_irc::config::connection_plan;
use discord_irc::relay::{
    local_channel, remote_channel, route_platform_message, route_remote_message, PlatformMessage,
    RemoteCommand, RemoteMessage, RoutingTable,
};
use discord_irc::topology::{build_topology, is_bridgeable, plan_endpoint, EndpointPlan, GuildChannel};

fn channel(name: &str, is_text: bool, category: Option<&str>, endpoint: Option<u64>) -> GuildChannel {
    GuildChannel {
        name: name.to_string(),
        is_text,
        category: category.map(|c| c.to_string()),
        endpoint,
    }
}

fn message(author: &str, content: &str, channel: &str, category: Option<&str>) -> PlatformMessage {
    PlatformMessage {
        channel_name: channel.to_string(),
        category: category.map(|c| c.to_string()),
        channel_has_endpoints: true,
        is_own: false,
        author_is_bot: false,
        author_name: author.to_string(),
        content: content.to_string(),
    }
}

fn privmsg(nick: Option<&str>, target: &str, body: &str) -> RemoteMessage {
    RemoteMessage {
        source_nickname: nick.map(|n| n.to_string()),
        command: RemoteCommand::Privmsg { target: target.to_string(), body: body.to_string() },
    }
}

#[test]
fn round_trip_formatting() {
    let mut table: RoutingTable<u32> = RoutingTable::new();
    assert!(table.register("irc.example.org".to_string(), 7));
    let m = message("Alice", "hi", "general", Some("irc.example.org"));
    let (h, o) = route_platform_message(&table, &m).expect("relayed");
    assert_eq!(*h, 7);
    assert_eq!(o.server, "irc.example.org");
    assert_eq!(o.channel, "##general");
    assert_eq!(o.text, "Alice: hi");
}

#[test]
fn remote_message_posted_unmodified() {
    let topo = build_topology(&vec![channel("general", true, Some("irc.example.org"), Some(42))]);
    let map = topo.channels_of(&"irc.example.org".to_string()).expect("mapped");
    let post = route_remote_message(map, &privmsg(Some("bob"), "##general", "hello  *there*")).expect("posted");
    assert_eq!(post.endpoint, 42);
    assert_eq!(post.username, "bob");
    assert_eq!(post.content, "hello  *there*");
}

#[test]
fn remote_message_without_nickname_uses_server_label() {
    let topo = build_topology(&vec![channel("general", true, Some("irc.example.org"), Some(42))]);
    let map = topo.channels_of(&"irc.example.org".to_string()).unwrap();
    let post = route_remote_message(map, &privmsg(None, "##general", "motd")).unwrap();
    assert_eq!(post.username, "Server");
    assert_eq!(post.content, "motd");
}

#[test]
fn remote_message_for_unmapped_channel_ignored() {
    let topo = build_topology(&vec![channel("general", true, Some("irc.example.org"), Some(42))]);
    let map = topo.channels_of(&"irc.example.org".to_string()).unwrap();
    assert!(route_remote_message(map, &privmsg(Some("bob"), "##random", "x")).is_none());
    assert!(route_remote_message(map, &privmsg(Some("bob"), "#general", "x")).is_none());
    let other = RemoteMessage { source_nickname: Some("bob".to_string()), command: RemoteCommand::Other };
    assert!(route_remote_message(map, &other).is_none());
}

#[test]
fn unregistered_category_dropped() {
    let mut table: RoutingTable<u32> = RoutingTable::new();
    table.register("a.example.org".to_string(), 1);
    let m = message("Alice", "hi", "general", Some("b.example.org"));
    assert!(route_platform_message(&table, &m).is_none());
    let empty: RoutingTable<u32> = RoutingTable::new();
    assert!(route_platform_message(&empty, &message("Alice", "hi", "general", Some("a.example.org"))).is_none());
}

#[test]
fn own_and_automated_messages_not_relayed() {
    let mut table: RoutingTable<u32> = RoutingTable::new();
    table.register("irc.example.org".to_string(), 1);
    let mut own = message("PonasBridge", "hi", "general", Some("irc.example.org"));
    own.is_own = true;
    assert!(route_platform_message(&table, &own).is_none());
    let mut bot = message("bob", "relayed", "general", Some("irc.example.org"));
    bot.author_is_bot = true;
    assert!(route_platform_message(&table, &bot).is_none());
    let mut inactive = message("Alice", "hi", "general", Some("irc.example.org"));
    inactive.channel_has_endpoints = false;
    assert!(route_platform_message(&table, &inactive).is_none());
    let uncategorized = message("Alice", "hi", "general", None);
    assert!(route_platform_message(&table, &uncategorized).is_none());
}

#[test]
fn outbound_order_kept() {
    let mut table: RoutingTable<u32> = RoutingTable::new();
    table.register("irc.example.org".to_string(), 1);
    let mut msgs = vec![
        message("Alice", "first", "general", Some("irc.example.org")),
        message("Bot", "skipped", "general", Some("irc.example.org")),
        message("Carol", "second", "general", Some("irc.example.org")),
        message("Dave", "third", "general", Some("irc.example.org")),
    ];
    msgs[1].author_is_bot = true;
    let lines: Vec<String> = msgs
        .iter()
        .filter_map(|m| route_platform_message(&table, m).map(|(_, o)| o.text))
        .collect();
    assert_eq!(lines, vec!["Alice: first", "Carol: second", "Dave: third"]);
}

#[test]
fn two_categories_stay_apart() {
    let topo = build_topology(&vec![
        channel("alpha", true, Some("a.example.org"), Some(1)),
        channel("gamma", true, Some("b.example.org"), Some(3)),
        channel("beta", true, Some("a.example.org"), Some(2)),
    ]);
    assert_eq!(topo.len(), 2);
    assert_eq!(topo.category_at(0), "a.example.org");
    assert_eq!(topo.category_at(1), "b.example.org");
    let nick = "PonasBridge".to_string();
    let plan_a = connection_plan(&nick, topo.category_at(0), topo.channels_at(0));
    let plan_b = connection_plan(&nick, topo.category_at(1), topo.channels_at(1));
    assert_eq!(plan_a.server, "a.example.org");
    assert_eq!(plan_a.channels, vec!["##alpha", "##beta"]);
    assert_eq!(plan_b.server, "b.example.org");
    assert_eq!(plan_b.channels, vec!["##gamma"]);
    let a = topo.channels_at(0);
    let b = topo.channels_at(1);
    assert!(route_remote_message(a, &privmsg(Some("bob"), "##gamma", "x")).is_none());
    assert!(route_remote_message(b, &privmsg(Some("bob"), "##alpha", "x")).is_none());
    assert_eq!(route_remote_message(a, &privmsg(Some("bob"), "##beta", "x")).unwrap().endpoint, 2);
    assert_eq!(route_remote_message(b, &privmsg(Some("bob"), "##gamma", "x")).unwrap().endpoint, 3);
}

#[test]
fn topology_skips_unbridged_channels() {
    let topo = build_topology(&vec![
        channel("voice", false, Some("irc.example.org"), Some(9)),
        channel("lobby", true, None, Some(8)),
        channel("broken", true, Some("irc.example.org"), None),
        channel("general", true, Some("irc.example.org"), Some(1)),
    ]);
    assert_eq!(topo.len(), 1);
    let map = topo.channels_at(0);
    assert_eq!(map.len(), 1);
    assert_eq!(map.key_at(0), "general");
    assert_eq!(*map.value_at(0), 1);
    assert!(build_topology(&vec![]).len() == 0);
}

#[test]
fn topology_later_channel_of_same_name_wins() {
    let topo = build_topology(&vec![
        channel("general", true, Some("irc.example.org"), Some(1)),
        channel("general", true, Some("irc.example.org"), Some(2)),
    ]);
    let map = topo.channels_of(&"irc.example.org".to_string()).unwrap();
    assert_eq!(map.len(), 1);
    assert_eq!(*map.get(&"general".to_string()).unwrap(), 2);
}

#[test]
fn endpoint_reused_or_created_once() {
    let name = "general".to_string();
    match plan_endpoint(&name, &vec![5, 6]) {
        EndpointPlan::Reuse(id) => assert_eq!(id, 5),
        EndpointPlan::Create(_) => panic!("an existing endpoint must be reused"),
    }
    match plan_endpoint(&name, &vec![]) {
        EndpointPlan::Create(n) => assert_eq!(n, "irc_bridge_general"),
        EndpointPlan::Reuse(_) => panic!("no endpoint to reuse"),
    }
    assert!(is_bridgeable(true, true));
    assert!(!is_bridgeable(false, true));
    assert!(!is_bridgeable(true, false));
}

#[test]
fn fallback_nicknames() {
    let topo = build_topology(&vec![channel("general", true, Some("irc.example.org"), Some(1))]);
    let plan = connection_plan(&"PonasBridge".to_string(), topo.category_at(0), topo.channels_at(0));
    assert_eq!(plan.nickname, "PonasBridge");
    assert_eq!(plan.alt_nicks, vec!["PonasBridge_", "PonasBridge__", "PonasBridge___"]);
    assert_eq!(plan.channels, vec!["##general"]);
}

#[test]
fn channel_names_map_both_ways() {
    assert_eq!(remote_channel(&"general".to_string()), "##general");
    assert_eq!(local_channel(&"##general".to_string()), Some("general".to_string()));
    assert_eq!(local_channel(&"##".to_string()), Some(String::new()));
    assert_eq!(local_channel(&"##élan".to_string()), Some("élan".to_string()));
    assert_eq!(local_channel(&"#general".to_string()), None);
    assert_eq!(local_channel(&"".to_string()), None);
}

#[test]
fn routing_table_registers_once() {
    let mut table: RoutingTable<u32> = RoutingTable::new();
    assert!(table.register("irc.example.org".to_string(), 1));
    assert!(!table.register("irc.example.org".to_string(), 2));
    assert_eq!(table.handle(&"irc.example.org".to_string()), Some(&1));
    assert_eq!(table.handle(&"other.example.org".to_string()), None);
}
