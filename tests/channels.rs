use highlights::channels::{
    classify_readable, get_channel_from_arg, get_channels_from_args, get_ids_from_args,
    has_distinct_ids,
    get_text_channels_in_guild, resolve_channel_words, ChannelKind, GuildChannel, ReadAccess,
    ResolveError,
};
use highlights::text::{eq_ignore_ascii_case, parse_u64};

fn channel(id: u64, name: &str) -> GuildChannel {
    GuildChannel { id, name: name.to_string(), kind: ChannelKind::Text }
}

fn directory() -> Vec<GuildChannel> {
    vec![channel(100, "general"), channel(200, "general"), channel(300, "Memes")]
}

#[test]
fn ambiguous_name_is_not_found() {
    let dir = directory();
    assert_eq!(get_channel_from_arg(&dir, "general").unwrap_err(), "general");
}

#[test]
fn bare_id_resolves() {
    let dir = directory();
    let (c, arg) = get_channel_from_arg(&dir, "100").unwrap();
    assert_eq!(c.id, 100);
    assert_eq!(arg, "100");
}

#[test]
fn mention_resolves_and_keeps_argument() {
    let dir = directory();
    let (c, arg) = get_channel_from_arg(&dir, "<#100>").unwrap();
    assert_eq!(c.id, 100);
    assert_eq!(arg, "<#100>");
}

#[test]
fn unknown_id_and_mention_are_not_found() {
    let dir = directory();
    assert_eq!(get_channel_from_arg(&dir, "999").unwrap_err(), "999");
    assert_eq!(get_channel_from_arg(&dir, "<#999>").unwrap_err(), "<#999>");
}

#[test]
fn numeric_argument_never_falls_back_to_names() {
    let dir = vec![channel(1, "42")];
    assert_eq!(get_channel_from_arg(&dir, "42").unwrap_err(), "42");
    assert_eq!(get_channel_from_arg(&dir, "+1").unwrap().0.id, 1);
}

#[test]
fn unique_name_matches_ignoring_ascii_case() {
    let dir = directory();
    assert_eq!(get_channel_from_arg(&dir, "MEMES").unwrap().0.id, 300);
    assert_eq!(get_channel_from_arg(&dir, "meme").unwrap_err(), "meme");
}

#[test]
fn malformed_mentions_fall_back_to_names() {
    let dir = vec![channel(5, "<#x>"), channel(6, "<#>")];
    assert_eq!(get_channel_from_arg(&dir, "<#x>").unwrap().0.id, 5);
    assert_eq!(get_channel_from_arg(&dir, "<#>").unwrap().0.id, 6);
}

#[test]
fn resolution_keeps_order_and_every_word() {
    let dir = directory();
    let r = get_channels_from_args(&dir, "  300 nope\tgeneral <#200>\n memes ");
    assert_eq!(r.not_found, vec!["nope".to_string(), "general".to_string()]);
    let found: Vec<(u64, String)> = r.found.iter().map(|(c, a)| (c.id, a.clone())).collect();
    assert_eq!(
        found,
        vec![(300, "300".to_string()), (200, "<#200>".to_string()), (300, "memes".to_string())]
    );
}

#[test]
fn empty_arguments_resolve_to_nothing() {
    let dir = directory();
    let r = get_channels_from_args(&dir, "   ");
    assert!(r.not_found.is_empty());
    assert!(r.found.is_empty());
}

#[test]
fn resolve_words_matches_split_arguments() {
    let dir = directory();
    let words = vec!["100".to_string(), "x".to_string()];
    let r = resolve_channel_words(&dir, &words);
    assert_eq!(r.not_found, vec!["x".to_string()]);
    assert_eq!(r.found.len(), 1);
    assert_eq!(r.found[0].0.id, 100);
}

#[test]
fn readability_buckets() {
    let dir = vec![channel(1, "a"), channel(2, "b"), channel(3, "c"), channel(4, "d")];
    let resolved = get_channels_from_args(&dir, "1 zz 2 3 4");
    let access = vec![
        ReadAccess { user_can_read: true, self_can_read: true },
        ReadAccess { user_can_read: false, self_can_read: true },
        ReadAccess { user_can_read: true, self_can_read: false },
        ReadAccess { user_can_read: false, self_can_read: false },
    ];
    let r = classify_readable(resolved, &access);
    assert_eq!(r.not_found, vec!["zz".to_string()]);
    assert_eq!(r.found.iter().map(|c| c.id).collect::<Vec<_>>(), vec![1]);
    assert_eq!(
        r.user_cant_read.iter().map(|(c, a)| (c.id, a.clone())).collect::<Vec<_>>(),
        vec![(2, "2".to_string()), (4, "4".to_string())]
    );
    assert_eq!(r.self_cant_read.iter().map(|c| c.id).collect::<Vec<_>>(), vec![3]);
}

#[test]
fn ids_from_args() {
    let r = get_ids_from_args("12 abc +7");
    assert_eq!(
        r,
        vec![Ok((12, "12".to_string())), Err("abc".to_string()), Ok((7, "+7".to_string()))]
    );
}

#[test]
fn text_channels_only() {
    let mut voice = channel(2, "voice");
    voice.kind = ChannelKind::Voice;
    let r = get_text_channels_in_guild(Some(vec![channel(1, "a"), voice, channel(3, "c")])).unwrap();
    assert_eq!(r.iter().map(|c| c.id).collect::<Vec<_>>(), vec![1, 3]);
    assert_eq!(get_text_channels_in_guild(None).unwrap_err(), ResolveError::GuildUnavailable);
}

#[test]
fn parse_u64_edges() {
    assert_eq!(parse_u64("0"), Some(0));
    assert_eq!(parse_u64("+5"), Some(5));
    assert_eq!(parse_u64(""), None);
    assert_eq!(parse_u64("+"), None);
    assert_eq!(parse_u64("-1"), None);
    assert_eq!(parse_u64("1a"), None);
    assert_eq!(parse_u64("18446744073709551615"), Some(u64::MAX));
    assert_eq!(parse_u64("18446744073709551616"), None);
    assert_eq!(parse_u64("000000000000000000000000042"), Some(42));
}

#[test]
fn ascii_case_insensitive_equality() {
    assert!(eq_ignore_ascii_case("General", "gENERAL"));
    assert!(!eq_ignore_ascii_case("general", "generals"));
    assert!(eq_ignore_ascii_case("ÄÖ", "ÄÖ"));
    assert!(!eq_ignore_ascii_case("ä", "Ä"));
    assert!(!eq_ignore_ascii_case("@", "`"));
}

#[test]
fn distinct_ids_check() {
    assert!(has_distinct_ids(&directory()));
    assert!(has_distinct_ids(&Vec::new()));
    assert!(!has_distinct_ids(&vec![channel(1, "a"), channel(2, "b"), channel(1, "c")]));
}

#[test]
fn split_on_unicode_white_space() {
    let dir = directory();
    let r = get_channels_from_args(&dir, "100\u{3000}x\u{a0}\u{2009}300\u{85}");
    assert_eq!(r.not_found, vec!["x".to_string()]);
    assert_eq!(r.found.iter().map(|(c, _)| c.id).collect::<Vec<_>>(), vec![100, 300]);
    let r = get_channels_from_args(&dir, "a\u{200b}b");
    assert_eq!(r.not_found, vec!["a\u{200b}b".to_string()]);
}
