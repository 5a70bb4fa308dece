use std::collections::{HashMap, HashSet};
use vstd::prelude::*;

use crate::str_map::StrMap;

verus! {

broadcast use vstd::std_specs::hash::group_hash_axioms;

/// Adds every id of `ids` to `set`.
fn insert_all(set: &mut HashSet<u64>, ids: &HashSet<u64>)
    ensures
        final(set)@ == old(set)@.union(ids@),
{
    let ghost start = set@;
    for id in it: ids.iter()
        invariant
            set@ == start.union(it.seq().take(it.index()).unref().to_set()),
            it.seq().unref().to_set() == ids@,
            it.index() == it.seq().len() ==> set@ == start.union(ids@),
    {
        let ghost before = set@;
        set.insert(*id);
        proof {
            let done = it.seq().take(it.index() + 1).unref();
            let prev = it.seq().take(it.index()).unref();
            assert(done =~= prev.push(*id));
            prev.lemma_push_to_set_commute(*id);
        }
        assert(set@ =~= start.union(it.seq().take(it.index() + 1).unref().to_set()));
        assert(it.index() + 1 == it.seq().len() ==> it.seq().take(it.index() + 1) =~= it.seq());
    }
}

/// Removes every id of `ids` from `set`.
fn remove_all(set: &mut HashSet<u64>, ids: &HashSet<u64>)
    ensures
        final(set)@ == old(set)@.difference(ids@),
{
    let ghost start = set@;
    for id in it: ids.iter()
        invariant
            set@ == start.difference(it.seq().take(it.index()).unref().to_set()),
            it.seq().unref().to_set() == ids@,
            it.index() == it.seq().len() ==> set@ == start.difference(ids@),
    {
        set.remove(id);
        proof {
            let done = it.seq().take(it.index() + 1).unref();
            let prev = it.seq().take(it.index()).unref();
            assert(done =~= prev.push(*id));
            prev.lemma_push_to_set_commute(*id);
        }
        assert(set@ =~= start.difference(it.seq().take(it.index() + 1).unref().to_set()));
        assert(it.index() + 1 == it.seq().len() ==> it.seq().take(it.index() + 1) =~= it.seq());
    }
}


/// The project mapping as plain sets: each project name to the ids of the
/// members who take part in it.
pub open spec fn project_sets(m: Map<Seq<char>, HashSet<u64>>) -> Map<Seq<char>, Set<u64>> {
    m.map_values(|s: HashSet<u64>| s@)
}

/// The member table as plain values: each user id to its display name.
pub open spec fn member_names(m: Map<u64, String>) -> Map<u64, Seq<char>> {
    m.map_values(|s: String| s@)
}

/// The members of `name` in `p`, or none where `p` does not hold `name`.
pub open spec fn members_of(p: Map<Seq<char>, Set<u64>>, name: Seq<char>) -> Set<u64> {
    if p.contains_key(name) {
        p[name]
    } else {
        Set::empty()
    }
}

/// The mapping once `ids` have joined project `name`; the project is
/// created where it was missing, even for an empty `ids`.
pub open spec fn mapping_after_add(
    p: Map<Seq<char>, Set<u64>>,
    name: Seq<char>,
    ids: Set<u64>,
) -> Map<Seq<char>, Set<u64>> {
    p.insert(name, members_of(p, name).union(ids))
}

/// The mapping once `ids` have left project `name`: a project that is left
/// without members is dropped; a missing project leaves the mapping as it is.
pub open spec fn mapping_after_remove(
    p: Map<Seq<char>, Set<u64>>,
    name: Seq<char>,
    ids: Set<u64>,
) -> Map<Seq<char>, Set<u64>> {
    if p.contains_key(name) {
        let rest = p[name].difference(ids);
        if rest.is_empty() {
            p.remove(name)
        } else {
            p.insert(name, rest)
        }
    } else {
        p
    }
}

/// Whether removing `ids` from project `name` drops the project.
pub open spec fn remove_drops_project(
    p: Map<Seq<char>, Set<u64>>,
    name: Seq<char>,
    ids: Set<u64>,
) -> bool {
    p.contains_key(name) && p[name].difference(ids).is_empty()
}

/// The key under which the bot's shared cache is registered.
pub struct SharedCacheKey;

/// The key under which the sender of cache commands is registered, so that
/// any part of the bot can ask the cache task for work.
pub struct CacheNotifyKey;

/// The key under which the gateway's shard manager is registered.
pub struct ShardManagerContainer;

/// The project manager of a project, as recorded in Notion.
pub struct NotionMember {
    /// The manager's Discord user id, written in decimal.
    pub id: String,
}

/// A project as the cache holds it.
pub struct Project {
    pub pm: NotionMember,
}

/// The cache that the whole bot shares.
pub struct BotCache {
    /// Display name of each server member, by Discord user id.
    pub all_members: HashMap<u64, String>,
    /// Ids of the members taking part in each project, by project name.
    pub project_mapping: StrMap<HashSet<u64>>,
    /// The projects, in the order in which they were loaded.
    pub project_vec: Vec<Project>,
    /// Notion page id of each project, by project name.
    pub project_name_to_id: StrMap<String>,
    /// Position in `project_vec` of each project, by Notion page id.
    pub project_id_mapping: StrMap<usize>,
}

impl BotCache {
    /// The project mapping as plain sets.
    pub open spec fn projects(&self) -> Map<Seq<char>, Set<u64>> {
        project_sets(self.project_mapping@)
    }

    /// The member table as plain values.
    pub open spec fn members(&self) -> Map<u64, Seq<char>> {
        member_names(self.all_members@)
    }

    /// Everything but the member table and the project mapping is as in `other`.
    pub open spec fn same_directory(&self, other: &BotCache) -> bool {
        &&& self.project_vec@ == other.project_vec@
        &&& self.project_name_to_id@ == other.project_name_to_id@
        &&& self.project_id_mapping@ == other.project_id_mapping@
    }

    /// An empty cache.
    pub fn new() -> (c: Self)
        ensures
            c.members() == Map::<u64, Seq<char>>::empty(),
            c.projects() == Map::<Seq<char>, Set<u64>>::empty(),
            c.project_vec@ == Seq::<Project>::empty(),
            c.project_name_to_id@ == Map::<Seq<char>, String>::empty(),
            c.project_id_mapping@ == Map::<Seq<char>, usize>::empty(),
    {
        let c = BotCache {
            all_members: HashMap::new(),
            project_mapping: StrMap::new(),
            project_vec: Vec::new(),
            project_name_to_id: StrMap::new(),
            project_id_mapping: StrMap::new(),
        };
        assert(c.members() =~= Map::<u64, Seq<char>>::empty());
        assert(c.projects() =~= Map::<Seq<char>, Set<u64>>::empty());
        c
    }

    /// Records the display name of one member, replacing any earlier name.
    pub fn update_single_member(&mut self, user_id: u64, display_name: String)
        ensures
            final(self).members() == old(self).members().insert(user_id, display_name@),
            final(self).projects() == old(self).projects(),
            final(self).same_directory(&*old(self)),
    {
        let ghost name = display_name@;
        self.all_members.insert(user_id, display_name);
        assert(self.members() =~= old(self).members().insert(user_id, name));
    }

    /// Adds `user_ids` to the members of project `project_name`, creating
    /// the project where it is missing.
    pub fn add_project_members(&mut self, project_name: String, user_ids: HashSet<u64>)
        ensures
            final(self).projects() == mapping_after_add(
                old(self).projects(),
                project_name@,
                user_ids@,
            ),
            final(self).members() == old(self).members(),
            final(self).same_directory(&*old(self)),
    {
        let ghost before = self.project_mapping@;
        let mut members = match self.project_mapping.remove(project_name.as_str()) {
            Some(set) => set,
            None => HashSet::new(),
        };
        insert_all(&mut members, &user_ids);
        let ghost joined = members@;
        self.project_mapping.insert(project_name, members);
        assert(self.project_mapping@ == before.remove(project_name@).insert(project_name@, members));
        assert(joined == members_of(project_sets(before), project_name@).union(user_ids@));
        assert(self.projects() =~= mapping_after_add(
            project_sets(before),
            project_name@,
            user_ids@,
        ));
    }

    /// Takes `user_ids` out of project `project_name`, where the project
    /// exists, and drops the project once nobody is left in it. Returns
    /// whether the project was dropped.
    pub fn remove_project_members(&mut self, project_name: String, user_ids: HashSet<u64>) -> (dropped: bool)
        ensures
            final(self).projects() == mapping_after_remove(
                old(self).projects(),
                project_name@,
                user_ids@,
            ),
            dropped == remove_drops_project(old(self).projects(), project_name@, user_ids@),
            final(self).members() == old(self).members(),
            final(self).same_directory(&*old(self)),
    {
        let ghost before = self.project_mapping@;
        match self.project_mapping.remove(project_name.as_str()) {
            Some(mut members) => {
                remove_all(&mut members, &user_ids);
                if members.is_empty() {
                    assert(self.projects() =~= mapping_after_remove(
                        project_sets(before),
                        project_name@,
                        user_ids@,
                    ));
                    true
                } else {
                    self.project_mapping.insert(project_name, members);
                    assert(self.projects() =~= mapping_after_remove(
                        project_sets(before),
                        project_name@,
                        user_ids@,
                    ));
                    false
                }
            },
            None => false,
        }
    }
}

/// A command that the cache's background task handles.
pub enum CacheCommand {
    /// Reload the whole cache from Discord and Notion.
    RefreshAll,
    /// Record the display name of one member.
    UpdateSingleMember { user_id: u64, display_name: String },
    /// Add members to a project.
    AddProjectMembers { project_name: String, user_ids: HashSet<u64> },
    /// Take members out of a project.
    RemoveProjectMembers { project_name: String, user_ids: HashSet<u64> },
}

/// What handling a command did, for the task that runs the cache.
#[derive(PartialEq, Eq, Structural, Debug, Clone, Copy)]
pub enum CacheEffect {
    /// Nothing changed; a full reload from Discord and Notion is due.
    RefreshRequested,
    /// A member's display name was recorded.
    MemberUpdated,
    /// Members were added to a project.
    MembersAdded,
    /// Members were taken out of a project; the flag tells whether the
    /// project was dropped for having nobody left.
    MembersRemoved { project_dropped: bool },
}

/// What a reload did.
#[derive(PartialEq, Eq, Structural, Debug, Clone, Copy)]
pub enum RefreshOutcome {
    /// The cache was replaced by a fresh one.
    Replaced,
    /// The Notion project list could not be had; the cache is unchanged.
    ProjectsUnavailable,
    /// The guild's members or roles could not be had; the cache is unchanged.
    GuildUnavailable,
}

impl BotCache {
    /// Everything in the cache is as in `other`.
    pub open spec fn same_as(&self, other: &BotCache) -> bool {
        &&& self.members() == other.members()
        &&& self.projects() == other.projects()
        &&& self.same_directory(other)
    }

    /// Handles one command of the background task.
    pub fn apply_command(&mut self, command: CacheCommand) -> (effect: CacheEffect)
        ensures
            match command {
                CacheCommand::RefreshAll => {
                    &&& effect == CacheEffect::RefreshRequested
                    &&& final(self).same_as(&*old(self))
                },
                CacheCommand::UpdateSingleMember { user_id, display_name } => {
                    &&& effect == CacheEffect::MemberUpdated
                    &&& final(self).members() == old(self).members().insert(
                        user_id,
                        display_name@,
                    )
                    &&& final(self).projects() == old(self).projects()
                    &&& final(self).same_directory(&*old(self))
                },
                CacheCommand::AddProjectMembers { project_name, user_ids } => {
                    &&& effect == CacheEffect::MembersAdded
                    &&& final(self).projects() == mapping_after_add(
                        old(self).projects(),
                        project_name@,
                        user_ids@,
                    )
                    &&& final(self).members() == old(self).members()
                    &&& final(self).same_directory(&*old(self))
                },
                CacheCommand::RemoveProjectMembers { project_name, user_ids } => {
                    &&& effect == CacheEffect::MembersRemoved {
                        project_dropped: remove_drops_project(
                            old(self).projects(),
                            project_name@,
                            user_ids@,
                        ),
                    }
                    &&& final(self).projects() == mapping_after_remove(
                        old(self).projects(),
                        project_name@,
                        user_ids@,
                    )
                    &&& final(self).members() == old(self).members()
                    &&& final(self).same_directory(&*old(self))
                },
            },
    {
        match command {
            CacheCommand::RefreshAll => CacheEffect::RefreshRequested,
            CacheCommand::UpdateSingleMember { user_id, display_name } => {
                self.update_single_member(user_id, display_name);
                CacheEffect::MemberUpdated
            },
            CacheCommand::AddProjectMembers { project_name, user_ids } => {
                self.add_project_members(project_name, user_ids);
                CacheEffect::MembersAdded
            },
            CacheCommand::RemoveProjectMembers { project_name, user_ids } => {
                let dropped = self.remove_project_members(project_name, user_ids);
                CacheEffect::MembersRemoved { project_dropped: dropped }
            },
        }
    }
}

/// Decides how a reload ends: the cache is replaced only when both the
/// guild's data and the Notion project list could be had.
pub fn refresh_outcome(guild_fetched: bool, projects_fetched: bool) -> (outcome: RefreshOutcome)
    ensures
        outcome == refresh_outcome_spec(guild_fetched, projects_fetched),
{
    if !guild_fetched {
        RefreshOutcome::GuildUnavailable
    } else if !projects_fetched {
        RefreshOutcome::ProjectsUnavailable
    } else {
        RefreshOutcome::Replaced
    }
}

/// The member table made from a list of `(user id, display name)` pairs;
/// a later pair for an id replaces an earlier one.
pub open spec fn member_table(list: Seq<(u64, String)>) -> Map<u64, Seq<char>>
    decreases list.len(),
{
    if list.len() == 0 {
        Map::empty()
    } else {
        member_table(list.drop_last()).insert(list.last().0, list.last().1@)
    }
}

/// Ends a reload. `guild_members` is the guild's member list, as pairs of
/// user id and display name, where both the members and the roles could be
/// fetched. The cache is replaced by a fresh one only when the guild's data
/// and the Notion project list could both be had: its member table then
/// holds exactly the fetched members, and its project mapping is empty (the
/// project list that the Notion query yields holds no member sets).
/// Otherwise the cache stays as it was.
pub fn refresh_cache(
    cache: &mut BotCache,
    guild_members: Option<Vec<(u64, String)>>,
    projects_fetched: bool,
) -> (outcome: RefreshOutcome)
    ensures
        outcome == refresh_outcome_spec(guild_members is Some, projects_fetched),
        outcome != RefreshOutcome::Replaced ==> final(cache).same_as(&*old(cache)),
        outcome == RefreshOutcome::Replaced ==> {
            &&& final(cache).members() == member_table(guild_members->0@)
            &&& final(cache).projects() == Map::<Seq<char>, Set<u64>>::empty()
            &&& final(cache).project_vec@ == Seq::<Project>::empty()
            &&& final(cache).project_name_to_id@ == Map::<Seq<char>, String>::empty()
            &&& final(cache).project_id_mapping@ == Map::<Seq<char>, usize>::empty()
        },
{
    let outcome = refresh_outcome(guild_members.is_some(), projects_fetched);
    if outcome == RefreshOutcome::Replaced {
        let members = match guild_members {
            Some(m) => m,
            None => Vec::new(),
        };
        let mut fresh = BotCache::new();
        let n = members.len();
        let mut i: usize = 0;
        while i < n
            invariant
                n == members@.len(),
                i <= n,
                fresh.members() == member_table(members@.take(i as int)),
                fresh.projects() == Map::<Seq<char>, Set<u64>>::empty(),
                fresh.project_vec@ == Seq::<Project>::empty(),
                fresh.project_name_to_id@ == Map::<Seq<char>, String>::empty(),
                fresh.project_id_mapping@ == Map::<Seq<char>, usize>::empty(),
            decreases n - i,
        {
            assert(members@.take(i + 1).drop_last() =~= members@.take(i as int));
            let (id, name) = &members[i];
            fresh.update_single_member(*id, name.clone());
            i = i + 1;
        }
        assert(members@.take(n as int) =~= members@);
        *cache = fresh;
    }
    outcome
}

/// How a reload ends, given what could be fetched.
pub open spec fn refresh_outcome_spec(guild_fetched: bool, projects_fetched: bool) -> RefreshOutcome {
    if !guild_fetched {
        RefreshOutcome::GuildUnavailable
    } else if !projects_fetched {
        RefreshOutcome::ProjectsUnavailable
    } else {
        RefreshOutcome::Replaced
    }
}

/// Taking out of a project the members that were just added to it gives
/// back the mapping as it was, where the project was missing before, or
/// where it already had members and none of the added ones among them.
pub proof fn law_remove_undoes_add(p: Map<Seq<char>, Set<u64>>, name: Seq<char>, ids: Set<u64>)
    requires
        !p.contains_key(name) || (p[name].disjoint(ids) && !p[name].is_empty()),
    ensures
        mapping_after_remove(mapping_after_add(p, name, ids), name, ids) == p,
{
    let q = mapping_after_add(p, name, ids);
    if p.contains_key(name) {
        assert(q[name].difference(ids) =~= p[name]);
        assert(mapping_after_remove(q, name, ids) =~= p);
    } else {
        assert(q[name].difference(ids) =~= Set::<u64>::empty());
        assert(mapping_after_remove(q, name, ids) =~= p);
    }
}

/// Adding the same members to a project twice is the same as adding them once.
pub proof fn law_add_idempotent(p: Map<Seq<char>, Set<u64>>, name: Seq<char>, ids: Set<u64>)
    ensures
        mapping_after_add(mapping_after_add(p, name, ids), name, ids) == mapping_after_add(
            p,
            name,
            ids,
        ),
{
    let q = mapping_after_add(p, name, ids);
    assert(q[name].union(ids) =~= q[name]);
    assert(mapping_after_add(q, name, ids) =~= q);
}

/// Taking the same members out of a project twice is the same as taking
/// them out once.
pub proof fn law_remove_idempotent(p: Map<Seq<char>, Set<u64>>, name: Seq<char>, ids: Set<u64>)
    ensures
        mapping_after_remove(mapping_after_remove(p, name, ids), name, ids)
            == mapping_after_remove(p, name, ids),
{
    let q = mapping_after_remove(p, name, ids);
    if q.contains_key(name) {
        assert(q[name].difference(ids) =~= q[name]);
        assert(mapping_after_remove(q, name, ids) =~= q);
    }
}

/// After members are taken out of a project, that project is either gone
/// or still has somebody in it.
pub proof fn law_remove_leaves_no_empty_project(
    p: Map<Seq<char>, Set<u64>>,
    name: Seq<char>,
    ids: Set<u64>,
)
    ensures
        mapping_after_remove(p, name, ids).contains_key(name) ==> !mapping_after_remove(
            p,
            name,
            ids,
        )[name].is_empty(),
        mapping_after_remove(p, name, ids).contains_key(name) ==> mapping_after_remove(
            p,
            name,
            ids,
        )[name].disjoint(ids),
{
}

/// Changes to two different projects do not depend on the order in which
/// the cache handles them.
pub proof fn law_different_projects_commute(
    p: Map<Seq<char>, Set<u64>>,
    a: Seq<char>,
    ids_a: Set<u64>,
    b: Seq<char>,
    ids_b: Set<u64>,
)
    requires
        a != b,
    ensures
        mapping_after_add(mapping_after_add(p, a, ids_a), b, ids_b) == mapping_after_add(
            mapping_after_add(p, b, ids_b),
            a,
            ids_a,
        ),
        mapping_after_remove(mapping_after_remove(p, a, ids_a), b, ids_b)
            == mapping_after_remove(mapping_after_remove(p, b, ids_b), a, ids_a),
        mapping_after_remove(mapping_after_add(p, a, ids_a), b, ids_b) == mapping_after_add(
            mapping_after_remove(p, b, ids_b),
            a,
            ids_a,
        ),
{
    assert(mapping_after_add(mapping_after_add(p, a, ids_a), b, ids_b) =~= mapping_after_add(
        mapping_after_add(p, b, ids_b),
        a,
        ids_a,
    ));
    assert(mapping_after_remove(mapping_after_remove(p, a, ids_a), b, ids_b)
        =~= mapping_after_remove(mapping_after_remove(p, b, ids_b), a, ids_a));
    assert(mapping_after_remove(mapping_after_add(p, a, ids_a), b, ids_b) =~= mapping_after_add(
        mapping_after_remove(p, b, ids_b),
        a,
        ids_a,
    ));
}

/// The last name recorded for a member is the one the cache keeps.
pub proof fn law_last_member_update_wins(m: Map<u64, Seq<char>>, user_id: u64, first: Seq<char>, second: Seq<char>)
    ensures
        m.insert(user_id, first).insert(user_id, second) == m.insert(user_id, second),
{
    assert(m.insert(user_id, first).insert(user_id, second) =~= m.insert(user_id, second));
}

/// Adding members to project `name` leaves every other project as it was
/// and makes `name` hold exactly the members it held before, if any, and
/// the added ones.
pub proof fn law_add_members_membership(p: Map<Seq<char>, Set<u64>>, name: Seq<char>, ids: Set<u64>)
    ensures
        mapping_after_add(p, name, ids).contains_key(name),
        forall|id: u64|
            #[trigger] mapping_after_add(p, name, ids)[name].contains(id) <==> (ids.contains(id) || (
            p.contains_key(name) && p[name].contains(id))),
        forall|k: Seq<char>|
            k != name ==> (#[trigger] mapping_after_add(p, name, ids).contains_key(k)
                == p.contains_key(k)),
        forall|k: Seq<char>|
            k != name && p.contains_key(k) ==> #[trigger] mapping_after_add(p, name, ids)[k] == p[k],
{
}

/// Taking members out of project `name` leaves every other project as it
/// was; a missing project stays missing; an existing one keeps exactly its
/// members that were not taken out, and is gone exactly when none are left.
pub proof fn law_remove_members_membership(p: Map<Seq<char>, Set<u64>>, name: Seq<char>, ids: Set<u64>)
    ensures
        !p.contains_key(name) ==> !mapping_after_remove(p, name, ids).contains_key(name),
        p.contains_key(name) ==> (mapping_after_remove(p, name, ids).contains_key(name) <==> exists|
            id: u64,
        | p[name].contains(id) && !ids.contains(id)),
        mapping_after_remove(p, name, ids).contains_key(name) ==> forall|id: u64|
            #[trigger] mapping_after_remove(p, name, ids)[name].contains(id) <==> (p[name].contains(
                id,
            ) && !ids.contains(id)),
        forall|k: Seq<char>|
            k != name ==> (#[trigger] mapping_after_remove(p, name, ids).contains_key(k)
                == p.contains_key(k)),
        forall|k: Seq<char>|
            k != name && p.contains_key(k) ==> #[trigger] mapping_after_remove(p, name, ids)[k]
                == p[k],
        remove_drops_project(p, name, ids) <==> (p.contains_key(name) && !mapping_after_remove(
            p,
            name,
            ids,
        ).contains_key(name)),
{
    if p.contains_key(name) {
        let rest = p[name].difference(ids);
        if rest.is_empty() {
            assert forall|id: u64| !(p[name].contains(id) && !ids.contains(id)) by {
                if p[name].contains(id) && !ids.contains(id) {
                    assert(rest.contains(id));
                }
            }
        } else {
            assert(!(rest =~= Set::<u64>::empty()));
            let id = choose|id: u64| !(rest.contains(id) == Set::<u64>::empty().contains(id));
            assert(p[name].contains(id) && !ids.contains(id));
        }
    }
}

/// The member table built from a list holds exactly the listed ids, each
/// with the name of the last pair that lists it.
pub proof fn law_member_table_from_list(list: Seq<(u64, String)>)
    ensures
        forall|id: u64|
            #[trigger] member_table(list).contains_key(id) <==> exists|i: int|
                0 <= i < list.len() && list[i].0 == id,
        forall|i: int|
            0 <= i < list.len() && (forall|j: int| i < j < list.len() ==> list[j].0 != list[i].0)
                ==> #[trigger] member_table(list)[list[i].0] == list[i].1@,
    decreases list.len(),
{
    if list.len() > 0 {
        let rest = list.drop_last();
        law_member_table_from_list(rest);
        assert forall|id: u64| #[trigger] member_table(list).contains_key(id) <==> exists|i: int|
            0 <= i < list.len() && list[i].0 == id by {
            assert(member_table(list).contains_key(id) == (member_table(rest).contains_key(id)
                || id == list.last().0));
            if member_table(list).contains_key(id) && id != list.last().0 {
                let i = choose|i: int| 0 <= i < rest.len() && rest[i].0 == id;
                assert(list[i] == rest[i]);
            }
            if exists|i: int| 0 <= i < list.len() && list[i].0 == id {
                let i = choose|i: int| 0 <= i < list.len() && list[i].0 == id;
                if i < list.len() - 1 {
                    assert(rest[i] == list[i]);
                }
            }
        }
        assert forall|i: int|
            0 <= i < list.len() && (forall|j: int| i < j < list.len() ==> list[j].0 != list[i].0)
                implies #[trigger] member_table(list)[list[i].0] == list[i].1@ by {
            if i < list.len() - 1 {
                assert(rest[i] == list[i]);
                assert(list[list.len() - 1].0 != list[i].0);
                assert forall|j: int| i < j < rest.len() implies rest[j].0 != rest[i].0 by {
                    assert(rest[j] == list[j]);
                }
                assert(member_table(rest)[rest[i].0] == rest[i].1@);
            }
        }
    }
}

} // verus!
