use std::collections::HashSet;

use project_bot::cache::{refresh_cache, BotCache, CacheCommand, CacheEffect, RefreshOutcome};

fn ids(list: &[u64]) -> HashSet<u64> {
    list.iter().copied().collect()
}

fn members_of(cache: &BotCache, name: &str) -> Option<HashSet<u64>> {
    cache.project_mapping.get(name).cloned()
}

#[test]
fn new_cache_is_empty() {
    let cache = BotCache::new();
    assert!(cache.all_members.is_empty());
    assert_eq!(cache.project_mapping.len(), 0);
    assert!(cache.project_vec.is_empty());
    assert_eq!(cache.project_name_to_id.len(), 0);
    assert_eq!(cache.project_id_mapping.len(), 0);
}

#[test]
fn update_single_member_records_name() {
    let mut cache = BotCache::new();
    cache.update_single_member(10, "alice".to_string());
    cache.update_single_member(20, "bob".to_string());
    assert_eq!(cache.all_members.get(&10).map(|s| s.as_str()), Some("alice"));
    assert_eq!(cache.all_members.get(&20).map(|s| s.as_str()), Some("bob"));
    assert_eq!(cache.all_members.len(), 2);
}

#[test]
fn last_member_update_wins() {
    let mut cache = BotCache::new();
    cache.update_single_member(10, "alice".to_string());
    cache.update_single_member(10, "alicia".to_string());
    assert_eq!(cache.all_members.get(&10).map(|s| s.as_str()), Some("alicia"));
    assert_eq!(cache.all_members.len(), 1);
}

#[test]
fn add_creates_project_and_unions() {
    let mut cache = BotCache::new();
    cache.add_project_members("alpha".to_string(), ids(&[1, 2]));
    assert_eq!(members_of(&cache, "alpha"), Some(ids(&[1, 2])));
    cache.add_project_members("alpha".to_string(), ids(&[2, 3]));
    assert_eq!(members_of(&cache, "alpha"), Some(ids(&[1, 2, 3])));
    assert_eq!(cache.project_mapping.len(), 1);
}

#[test]
fn add_with_no_ids_creates_empty_project() {
    let mut cache = BotCache::new();
    cache.add_project_members("alpha".to_string(), ids(&[]));
    assert_eq!(members_of(&cache, "alpha"), Some(ids(&[])));
}

#[test]
fn add_leaves_other_projects() {
    let mut cache = BotCache::new();
    cache.add_project_members("alpha".to_string(), ids(&[1]));
    cache.add_project_members("beta".to_string(), ids(&[2]));
    assert_eq!(members_of(&cache, "alpha"), Some(ids(&[1])));
    assert_eq!(members_of(&cache, "beta"), Some(ids(&[2])));
}

#[test]
fn remove_from_missing_project_changes_nothing() {
    let mut cache = BotCache::new();
    cache.add_project_members("alpha".to_string(), ids(&[1]));
    let dropped = cache.remove_project_members("beta".to_string(), ids(&[1]));
    assert!(!dropped);
    assert_eq!(members_of(&cache, "alpha"), Some(ids(&[1])));
    assert_eq!(members_of(&cache, "beta"), None);
}

#[test]
fn remove_some_members_keeps_project() {
    let mut cache = BotCache::new();
    cache.add_project_members("alpha".to_string(), ids(&[1, 2, 3]));
    let dropped = cache.remove_project_members("alpha".to_string(), ids(&[2, 9]));
    assert!(!dropped);
    assert_eq!(members_of(&cache, "alpha"), Some(ids(&[1, 3])));
}

#[test]
fn remove_last_members_drops_project() {
    let mut cache = BotCache::new();
    cache.add_project_members("alpha".to_string(), ids(&[1, 2]));
    let dropped = cache.remove_project_members("alpha".to_string(), ids(&[1, 2]));
    assert!(dropped);
    assert_eq!(members_of(&cache, "alpha"), None);
    assert_eq!(cache.project_mapping.len(), 0);
}

#[test]
fn remove_from_empty_project_drops_it() {
    let mut cache = BotCache::new();
    cache.add_project_members("alpha".to_string(), ids(&[]));
    let dropped = cache.remove_project_members("alpha".to_string(), ids(&[]));
    assert!(dropped);
    assert_eq!(members_of(&cache, "alpha"), None);
}

#[test]
fn remove_undoes_add_on_new_project() {
    let mut cache = BotCache::new();
    cache.add_project_members("beta".to_string(), ids(&[7]));
    cache.add_project_members("alpha".to_string(), ids(&[1, 2]));
    cache.remove_project_members("alpha".to_string(), ids(&[1, 2]));
    assert_eq!(members_of(&cache, "alpha"), None);
    assert_eq!(members_of(&cache, "beta"), Some(ids(&[7])));
    assert_eq!(cache.project_mapping.len(), 1);
}

#[test]
fn remove_undoes_add_of_new_members() {
    let mut cache = BotCache::new();
    cache.add_project_members("alpha".to_string(), ids(&[5]));
    cache.add_project_members("alpha".to_string(), ids(&[1, 2]));
    cache.remove_project_members("alpha".to_string(), ids(&[1, 2]));
    assert_eq!(members_of(&cache, "alpha"), Some(ids(&[5])));
}

#[test]
fn add_twice_same_as_once() {
    let mut once = BotCache::new();
    once.add_project_members("alpha".to_string(), ids(&[1, 2]));
    let mut twice = BotCache::new();
    twice.add_project_members("alpha".to_string(), ids(&[1, 2]));
    twice.add_project_members("alpha".to_string(), ids(&[1, 2]));
    assert_eq!(members_of(&once, "alpha"), members_of(&twice, "alpha"));
}

#[test]
fn remove_twice_same_as_once() {
    let mut cache = BotCache::new();
    cache.add_project_members("alpha".to_string(), ids(&[1, 2, 3]));
    cache.remove_project_members("alpha".to_string(), ids(&[1]));
    let after_once = members_of(&cache, "alpha");
    let dropped = cache.remove_project_members("alpha".to_string(), ids(&[1]));
    assert!(!dropped);
    assert_eq!(members_of(&cache, "alpha"), after_once);
    assert_eq!(after_once, Some(ids(&[2, 3])));
}

#[test]
fn different_projects_commute() {
    let mut first = BotCache::new();
    first.add_project_members("alpha".to_string(), ids(&[1]));
    first.remove_project_members("beta".to_string(), ids(&[2]));
    first.add_project_members("beta".to_string(), ids(&[3]));
    let mut second = BotCache::new();
    second.add_project_members("beta".to_string(), ids(&[3]));
    second.remove_project_members("beta".to_string(), ids(&[2]));
    second.add_project_members("alpha".to_string(), ids(&[1]));
    assert_eq!(members_of(&first, "alpha"), members_of(&second, "alpha"));
    assert_eq!(members_of(&first, "beta"), members_of(&second, "beta"));
}

#[test]
fn apply_command_dispatches() {
    let mut cache = BotCache::new();
    assert_eq!(cache.apply_command(CacheCommand::RefreshAll), CacheEffect::RefreshRequested);
    assert_eq!(
        cache.apply_command(CacheCommand::UpdateSingleMember {
            user_id: 4,
            display_name: "dana".to_string()
        }),
        CacheEffect::MemberUpdated
    );
    assert_eq!(cache.all_members.get(&4).map(|s| s.as_str()), Some("dana"));
    assert_eq!(
        cache.apply_command(CacheCommand::AddProjectMembers {
            project_name: "alpha".to_string(),
            user_ids: ids(&[4, 5]),
        }),
        CacheEffect::MembersAdded
    );
    assert_eq!(members_of(&cache, "alpha"), Some(ids(&[4, 5])));
    assert_eq!(
        cache.apply_command(CacheCommand::RemoveProjectMembers {
            project_name: "alpha".to_string(),
            user_ids: ids(&[4]),
        }),
        CacheEffect::MembersRemoved { project_dropped: false }
    );
    assert_eq!(
        cache.apply_command(CacheCommand::RemoveProjectMembers {
            project_name: "alpha".to_string(),
            user_ids: ids(&[5]),
        }),
        CacheEffect::MembersRemoved { project_dropped: true }
    );
    assert_eq!(members_of(&cache, "alpha"), None);
}

#[test]
fn refresh_replaces_only_when_everything_was_fetched() {
    let mut cache = BotCache::new();
    cache.update_single_member(1, "a".to_string());
    cache.add_project_members("alpha".to_string(), ids(&[1]));
    let fetched = vec![(7u64, "gil".to_string()), (8, "hal".to_string())];
    assert_eq!(refresh_cache(&mut cache, None, true), RefreshOutcome::GuildUnavailable);
    assert_eq!(cache.all_members.len(), 1);
    assert_eq!(
        refresh_cache(&mut cache, Some(fetched.clone()), false),
        RefreshOutcome::ProjectsUnavailable
    );
    assert_eq!(members_of(&cache, "alpha"), Some(ids(&[1])));
    assert_eq!(cache.all_members.get(&1).map(|s| s.as_str()), Some("a"));
    assert_eq!(refresh_cache(&mut cache, Some(fetched), true), RefreshOutcome::Replaced);
    assert_eq!(cache.all_members.len(), 2);
    assert_eq!(cache.all_members.get(&7).map(|s| s.as_str()), Some("gil"));
    assert_eq!(cache.all_members.get(&8).map(|s| s.as_str()), Some("hal"));
    assert_eq!(cache.project_mapping.len(), 0);
}

#[test]
fn refresh_with_no_members_empties_table() {
    let mut cache = BotCache::new();
    cache.update_single_member(1, "a".to_string());
    assert_eq!(refresh_cache(&mut cache, Some(Vec::new()), true), RefreshOutcome::Replaced);
    assert!(cache.all_members.is_empty());
}
