use std::collections::HashSet;

use project_bot::cache::{BotCache, NotionMember, Project};
use project_bot::commands::member::{
    member_action, member_listing, member_usage, outside_project_reply, unknown_subcommand_reply,
    usage_content, MemberAction,
};
use project_bot::commands::utils::{
    convert_string_to_discord_id, get_project_category_id, get_project_idx_by_name,
    get_string_arg, is_project_pm, is_server_admin, ChannelKind, CommandOption,
    CommandOptionValue, PmCheck, ProjectLookup,
};

fn string_opt(name: &str, value: &str) -> CommandOption {
    CommandOption { name: name.to_string(), value: CommandOptionValue::String(value.to_string()) }
}

fn sub(opts: Vec<CommandOption>) -> CommandOption {
    CommandOption { name: "add".to_string(), value: CommandOptionValue::SubCommand(opts) }
}

#[test]
fn string_arg_found() {
    let opt = sub(vec![string_opt("user", "alice"), string_opt("role", "pm")]);
    assert_eq!(get_string_arg(&opt, "role"), Some("pm".to_string()));
    assert_eq!(get_string_arg(&opt, "user"), Some("alice".to_string()));
}

#[test]
fn string_arg_missing_or_not_a_string() {
    let opt = sub(vec![
        string_opt("user", "alice"),
        CommandOption { name: "count".to_string(), value: CommandOptionValue::Other },
    ]);
    assert_eq!(get_string_arg(&opt, "name"), None);
    assert_eq!(get_string_arg(&opt, "count"), None);
}

#[test]
fn string_arg_first_option_of_that_name_counts() {
    let opt = sub(vec![
        CommandOption { name: "user".to_string(), value: CommandOptionValue::Other },
        string_opt("user", "bob"),
    ]);
    assert_eq!(get_string_arg(&opt, "user"), None);
    let opt = sub(vec![string_opt("user", "carol"), string_opt("user", "bob")]);
    assert_eq!(get_string_arg(&opt, "user"), Some("carol".to_string()));
}

#[test]
fn string_arg_needs_a_subcommand() {
    let opt = string_opt("user", "alice");
    assert_eq!(get_string_arg(&opt, "user"), None);
}

#[test]
fn discord_id_parsing() {
    assert_eq!(convert_string_to_discord_id("123456789012345678"), Some(123456789012345678));
    assert_eq!(convert_string_to_discord_id("+7"), Some(7));
    assert_eq!(convert_string_to_discord_id("0"), Some(0));
    assert_eq!(convert_string_to_discord_id("007"), Some(7));
    assert_eq!(convert_string_to_discord_id("18446744073709551615"), Some(u64::MAX));
    assert_eq!(convert_string_to_discord_id("18446744073709551616"), None);
    assert_eq!(convert_string_to_discord_id("99999999999999999999x"), None);
    assert_eq!(convert_string_to_discord_id(""), None);
    assert_eq!(convert_string_to_discord_id("+"), None);
    assert_eq!(convert_string_to_discord_id("-1"), None);
    assert_eq!(convert_string_to_discord_id("12a"), None);
    assert_eq!(convert_string_to_discord_id(" 1"), None);
    assert_eq!(convert_string_to_discord_id("++1"), None);
}

fn directory() -> BotCache {
    let mut cache = BotCache::new();
    cache.project_vec.push(Project { pm: NotionMember { id: "42".to_string() } });
    cache.project_vec.push(Project { pm: NotionMember { id: "0".to_string() } });
    cache.project_vec.push(Project { pm: NotionMember { id: "not-a-number".to_string() } });
    cache.project_name_to_id.insert("alpha".to_string(), "page-a".to_string());
    cache.project_name_to_id.insert("zero".to_string(), "page-z".to_string());
    cache.project_name_to_id.insert("bad".to_string(), "page-b".to_string());
    cache.project_name_to_id.insert("stale".to_string(), "page-s".to_string());
    cache.project_name_to_id.insert("gone".to_string(), "page-g".to_string());
    cache.project_id_mapping.insert("page-a".to_string(), 0);
    cache.project_id_mapping.insert("page-z".to_string(), 1);
    cache.project_id_mapping.insert("page-b".to_string(), 2);
    cache.project_id_mapping.insert("page-g".to_string(), 9);
    cache
}

#[test]
fn project_index_lookup() {
    let cache = directory();
    assert_eq!(get_project_idx_by_name(&cache, "alpha"), ProjectLookup::Found(0));
    assert_eq!(get_project_idx_by_name(&cache, "bad"), ProjectLookup::Found(2));
    assert_eq!(get_project_idx_by_name(&cache, "stale"), ProjectLookup::NotCached);
    assert_eq!(get_project_idx_by_name(&cache, "nothing"), ProjectLookup::UnknownName);
}

#[test]
fn project_pm_checks() {
    let cache = directory();
    let yes = PmCheck { is_pm: true, refresh: false, zero_pm_id: false };
    let no = PmCheck { is_pm: false, refresh: false, zero_pm_id: false };
    assert_eq!(is_project_pm(&cache, "alpha", 42), yes);
    assert_eq!(is_project_pm(&cache, "alpha", 43), no);
    assert_eq!(is_project_pm(&cache, "bad", 42), no);
    assert_eq!(is_project_pm(&cache, "gone", 42), no);
    assert_eq!(is_project_pm(&cache, "nothing", 42), no);
    assert_eq!(
        is_project_pm(&cache, "stale", 42),
        PmCheck { is_pm: false, refresh: true, zero_pm_id: false }
    );
    assert_eq!(
        is_project_pm(&cache, "zero", 42),
        PmCheck { is_pm: false, refresh: false, zero_pm_id: true }
    );
}

#[test]
fn category_of_channel() {
    assert_eq!(get_project_category_id(Some((77, ChannelKind::Category))), Some(77));
    assert_eq!(get_project_category_id(Some((77, ChannelKind::Other))), None);
    assert_eq!(get_project_category_id(None), None);
}

#[test]
fn server_admin_is_owner() {
    assert!(is_server_admin(Some(5), 5));
    assert!(!is_server_admin(Some(5), 6));
    assert!(!is_server_admin(None, 5));
}

const USAGE: &str = "사용법: `~member <add | remove> [미참여 유저 이름]`\n\n";

#[test]
fn usage_content_splits_members() {
    let listing = vec![(1, "amy".to_string()), (2, "ben".to_string()), (3, "cal".to_string())];
    let project: HashSet<u64> = [2u64].into_iter().collect();
    let text = usage_content(&listing, Some(&project));
    assert_eq!(text, format!("{USAGE}`미참여 인원`\namy\ncal\n`참여 인원`\nben\n"));
    let text = usage_content(&listing, None);
    assert_eq!(text, format!("{USAGE}`미참여 인원`\namy\nben\ncal\n`참여 인원`\n"));
}

#[test]
fn usage_content_without_members() {
    let text = usage_content(&Vec::new(), None);
    assert_eq!(text, format!("{USAGE}`미참여 인원`\n`참여 인원`\n"));
}

#[test]
fn listing_names_every_member_once() {
    let mut cache = BotCache::new();
    cache.update_single_member(1, "amy".to_string());
    cache.update_single_member(2, "ben".to_string());
    cache.update_single_member(3, "cal".to_string());
    let mut listing = member_listing(&cache.all_members);
    listing.sort();
    assert_eq!(
        listing,
        vec![(1, "amy".to_string()), (2, "ben".to_string()), (3, "cal".to_string())]
    );
}

#[test]
fn member_outside_a_project() {
    assert_eq!(member_action(false, Some("add")), MemberAction::OutsideProject);
    assert_eq!(member_action(false, None), MemberAction::OutsideProject);
    assert_eq!(outside_project_reply(), "❌ 이 명령어는 프로젝트 내에서만 사용 가능합니다");
}

#[test]
fn member_usage_reply() {
    let mut cache = BotCache::new();
    cache.update_single_member(1, "amy".to_string());
    cache.add_project_members("alpha".to_string(), [1u64].into_iter().collect());
    assert_eq!(member_action(true, None), MemberAction::ShowUsage);
    assert_eq!(member_usage(&cache, "alpha"), format!("{USAGE}`미참여 인원`\n`참여 인원`\namy\n"));
    assert_eq!(member_usage(&cache, "beta"), format!("{USAGE}`미참여 인원`\namy\n`참여 인원`\n"));
}

#[test]
fn member_subcommands() {
    assert_eq!(member_action(true, Some("add")), MemberAction::Add);
    assert_eq!(member_action(true, Some("remove")), MemberAction::Remove);
    assert_eq!(member_action(true, Some("list")), MemberAction::UnknownSubcommand);
    assert_eq!(member_action(true, Some("Add")), MemberAction::UnknownSubcommand);
    assert_eq!(
        unknown_subcommand_reply(),
        "❌ 알 수 없는 하위 명령어입니다. (사용 가능: add, remove)"
    );
}

#[test]
fn discord_id_text_reads_back() {
    for id in [1u64, 9, 10, 42, 1000, 123456789012345678, u64::MAX] {
        assert_eq!(convert_string_to_discord_id(&id.to_string()), Some(id));
    }
}

#[test]
fn usage_lists_members_in_table_order() {
    let mut cache = BotCache::new();
    for (id, name) in [(5u64, "eve"), (1, "amy"), (9, "ian"), (3, "cal")] {
        cache.update_single_member(id, name.to_string());
    }
    cache.add_project_members("alpha".to_string(), [1u64, 9].into_iter().collect());
    let listing = member_listing(&cache.all_members);
    let walked: Vec<(u64, String)> =
        cache.all_members.iter().map(|(k, v)| (*k, v.clone())).collect();
    assert_eq!(listing, walked);
    let project = cache.project_mapping.get("alpha");
    assert_eq!(member_usage(&cache, "alpha"), usage_content(&listing, project));
}
