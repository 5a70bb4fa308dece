use std::collections::{HashMap, HashSet};
use vstd::prelude::*;
use vstd::std_specs::iter::IteratorSpec;

use crate::cache::{members_of, BotCache};

verus! {

broadcast use vstd::std_specs::hash::group_hash_axioms;

/// `listing` names every member of `members` exactly once, with its display
/// name, in some order.
pub open spec fn is_member_listing(listing: Seq<(u64, String)>, members: Map<u64, String>) -> bool {
    &&& forall|i: int|
        0 <= i < listing.len() ==> members.contains_key(#[trigger] listing[i].0) && members[listing[i].0]
            == listing[i].1
    &&& forall|k: u64| #[trigger]
        members.contains_key(k) ==> exists|i: int| 0 <= i < listing.len() && listing[i].0 == k
    &&& forall|i: int, j: int|
        0 <= i < listing.len() && 0 <= j < listing.len() && i != j ==> listing[i].0 != listing[j].0
}

/// The display names of the listed members who take part in the project
/// (`.0`) and of those who do not (`.1`), each in the listing's order.
pub open spec fn split_names(listing: Seq<(u64, String)>, project: Set<u64>) -> (
    Seq<Seq<char>>,
    Seq<Seq<char>>,
)
    decreases listing.len(),
{
    if listing.len() == 0 {
        (Seq::empty(), Seq::empty())
    } else {
        let (inc, exc) = split_names(listing.drop_last(), project);
        if project.contains(listing.last().0) {
            (inc.push(listing.last().1@), exc)
        } else {
            (inc, exc.push(listing.last().1@))
        }
    }
}

/// The names, one per line.
pub open spec fn name_lines(names: Seq<Seq<char>>) -> Seq<char>
    decreases names.len(),
{
    if names.len() == 0 {
        Seq::empty()
    } else {
        name_lines(names.drop_last()) + names.last() + "\n"@
    }
}

/// The first line of the usage text, with a blank line after it.
pub open spec fn usage_line() -> Seq<char> {
    "사용법: `~member <add | remove> [미참여 유저 이름]`\n\n"@
}

/// The heading over the members who do not take part in the project.
pub open spec fn excluded_heading() -> Seq<char> {
    "`미참여 인원`\n"@
}

/// The heading over the members who take part in the project.
pub open spec fn included_heading() -> Seq<char> {
    "`참여 인원`\n"@
}

/// The reply to `~member` without a sub-command: the usage line, then the
/// members outside the project, then those in it.
pub open spec fn usage_text(listing: Seq<(u64, String)>, project: Set<u64>) -> Seq<char> {
    let (inc, exc) = split_names(listing, project);
    usage_line() + excluded_heading() + name_lines(exc) + included_heading() + name_lines(inc)
}

/// The reply where the command was given outside a project category.
pub open spec fn outside_project_text() -> Seq<char> {
    "❌ 이 명령어는 프로젝트 내에서만 사용 가능합니다"@
}

/// The reply to a sub-command that `~member` does not know.
pub open spec fn unknown_subcommand_text() -> Seq<char> {
    "❌ 알 수 없는 하위 명령어입니다. (사용 가능: add, remove)"@
}

/// The set of member ids that an optional project set stands for.
pub open spec fn opt_members(project: Option<&HashSet<u64>>) -> Set<u64> {
    match project {
        Some(s) => s@,
        None => Set::empty(),
    }
}

/// A walk `s` of the member table yields a listing of it.
proof fn lemma_walk_lists_members(listing: Seq<(u64, String)>, s: Seq<(&u64, &String)>, members: &HashMap<u64, String>)
    ensures
        ({
            &&& listing.len() == s.len()
            &&& forall|j: int| 0 <= j < s.len() ==> #[trigger] listing[j] == (*s[j].0, *s[j].1)
            &&& s == vstd::std_specs::hash::spec_hash_map_iter(members).remaining()
            &&& s.no_duplicates()
        }) ==> is_member_listing(listing, members@),
{
    if listing.len() == s.len() && (forall|j: int|
        0 <= j < s.len() ==> #[trigger] listing[j] == (*s[j].0, *s[j].1)) && s
        == vstd::std_specs::hash::spec_hash_map_iter(members).remaining() && s.no_duplicates() {
        assert forall|i: int| 0 <= i < listing.len() implies members@.contains_key(
            #[trigger] listing[i].0,
        ) && members@[listing[i].0] == listing[i].1 by {
            assert(listing[i] == (*s[i].0, *s[i].1));
            assert(members@.contains_key(*s[i].0));
        }
        assert forall|k: u64| #[trigger] members@.contains_key(k) implies exists|i: int|
            0 <= i < listing.len() && listing[i].0 == k by {
            assert(s.contains((&k, &members@[k])));
            let i = choose|i: int| 0 <= i < s.len() && s[i] == (&k, &members@[k]);
            assert(listing[i] == (*s[i].0, *s[i].1));
        }
        assert forall|i: int, j: int|
            0 <= i < listing.len() && 0 <= j < listing.len() && i != j implies listing[i].0
            != listing[j].0 by {
            assert(listing[i] == (*s[i].0, *s[i].1));
            assert(listing[j] == (*s[j].0, *s[j].1));
            assert(members@.contains_key(*s[i].0));
            assert(members@.contains_key(*s[j].0));
            if listing[i].0 == listing[j].0 {
                assert(s[i] == s[j]);
            }
        }
    }
}

/// The entries of the member table in the order in which walking the
/// table yields them.
pub open spec fn walk_order(members: &HashMap<u64, String>) -> Seq<(u64, String)> {
    vstd::std_specs::hash::into_iter(vstd::std_specs::hash::spec_hash_map_iter(members))
}

/// Lists the members of the member table, each once, in the order in which
/// the table is walked.
pub fn member_listing(members: &HashMap<u64, String>) -> (listing: Vec<(u64, String)>)
    ensures
        listing@ == walk_order(members),
        is_member_listing(listing@, members@),
{
    let mut listing: Vec<(u64, String)> = Vec::new();
    proof {
        lemma_walk_lists_members(listing@, vstd::std_specs::hash::spec_hash_map_iter(members).remaining(), members);
    }
    for entry in it: members.iter()
        invariant
            listing@.len() == it.index(),
            it.seq() == vstd::std_specs::hash::spec_hash_map_iter(members).remaining(),
            it.seq().no_duplicates(),
            forall|j: int|
                0 <= j < it.index() ==> #[trigger] listing@[j] == (*it.seq()[j].0, *it.seq()[j].1),
            it.index() == it.seq().len() ==> is_member_listing(listing@, members@),
            it.seq().unref() == walk_order(members),
            it.index() == it.seq().len() ==> listing@ == walk_order(members),
    {
        let (k, v) = entry;
        listing.push((*k, v.clone()));
        proof {
            lemma_walk_lists_members(listing@, it.seq(), members);
        }
        assert(it.index() + 1 == it.seq().len() ==> listing@ =~= it.seq().unref());
    }
    listing
}

/// The names of a list of strings.
pub open spec fn string_views(v: Seq<String>) -> Seq<Seq<char>> {
    v.map_values(|s: String| s@)
}

/// Appends each name, followed by a line break.
fn append_name_lines(content: &mut String, names: &Vec<String>)
    ensures
        final(content)@ == old(content)@ + name_lines(string_views(names@)),
{
    let ghost start = content@;
    let n = names.len();
    let mut i: usize = 0;
    while i < n
        invariant
            n == names@.len(),
            i <= n,
            content@ == start + name_lines(string_views(names@).take(i as int)),
        decreases n - i,
    {
        assert(string_views(names@).take(i + 1).drop_last() =~= string_views(names@).take(i as int));
        content.append(names[i].as_str());
        content.append("\n");
        assert(content@ =~= start + name_lines(string_views(names@).take(i + 1)));
        i = i + 1;
    }
    assert(string_views(names@).take(n as int) =~= string_views(names@));
}

/// Builds the usage reply from a listing of the members and the set of
/// those who take part in the project (none where the project is missing).
pub fn usage_content(listing: &Vec<(u64, String)>, project: Option<&HashSet<u64>>) -> (content: String)
    ensures
        content@ == usage_text(listing@, opt_members(project)),
{
    let ghost set = opt_members(project);
    let mut included: Vec<String> = Vec::new();
    let mut excluded: Vec<String> = Vec::new();
    let n = listing.len();
    let mut i: usize = 0;
    while i < n
        invariant
            n == listing@.len(),
            i <= n,
            set == opt_members(project),
            (string_views(included@), string_views(excluded@)) == split_names(
                listing@.take(i as int),
                set,
            ),
        decreases n - i,
    {
        assert(listing@.take(i + 1).drop_last() =~= listing@.take(i as int));
        let (id, name) = &listing[i];
        let taking_part = match project {
            Some(members) => members.contains(id),
            None => false,
        };
        if taking_part {
            included.push(name.clone());
        } else {
            excluded.push(name.clone());
        }
        assert(string_views(included@) =~= split_names(listing@.take(i + 1), set).0);
        assert(string_views(excluded@) =~= split_names(listing@.take(i + 1), set).1);
        i = i + 1;
    }
    assert(listing@.take(n as int) =~= listing@);
    let mut content = "사용법: `~member <add | remove> [미참여 유저 이름]`\n\n".to_owned();
    content.append("`미참여 인원`\n");
    append_name_lines(&mut content, &excluded);
    content.append("`참여 인원`\n");
    append_name_lines(&mut content, &included);
    assert(content@ =~= usage_text(listing@, set));
    content
}

/// The usage reply for the project called `project_name`: the members of
/// the member table, in the order in which the table is walked, split into
/// those outside and those inside the project.
pub fn member_usage(cache: &BotCache, project_name: &str) -> (content: String)
    ensures
        content@ == usage_text(
            walk_order(&cache.all_members),
            members_of(cache.projects(), project_name@),
        ),
        is_member_listing(walk_order(&cache.all_members), cache.all_members@),
{
    let listing = member_listing(&cache.all_members);
    let project = cache.project_mapping.get(project_name);
    let content = usage_content(&listing, project);
    assert(opt_members(project) =~= members_of(cache.projects(), project_name@));
    content
}

/// What `~member` does, once its arguments are read.
#[derive(PartialEq, Eq, Structural, Debug, Clone, Copy)]
pub enum MemberAction {
    /// The command was given outside a project category: reply so.
    OutsideProject,
    /// No sub-command: reply with the usage text and the project's members.
    ShowUsage,
    /// `add`: nothing to do yet.
    Add,
    /// `remove`: nothing to do yet.
    Remove,
    /// Any other sub-command: reply that it is unknown.
    UnknownSubcommand,
}

/// Decides what `~member` does: `in_project` tells whether the command's
/// channel sits in a category, `subcommand` is the first argument, where
/// there is one.
pub fn member_action(in_project: bool, subcommand: Option<&str>) -> (action: MemberAction)
    ensures
        action == (if !in_project {
            MemberAction::OutsideProject
        } else {
            match subcommand {
                None => MemberAction::ShowUsage,
                Some(s) => if s@ == "add"@ {
                    MemberAction::Add
                } else if s@ == "remove"@ {
                    MemberAction::Remove
                } else {
                    MemberAction::UnknownSubcommand
                },
            }
        }),
{
    if !in_project {
        return MemberAction::OutsideProject;
    }
    match subcommand {
        None => MemberAction::ShowUsage,
        Some(s) => {
            let s = s.to_owned();
            if s == "add".to_owned() {
                MemberAction::Add
            } else if s == "remove".to_owned() {
                MemberAction::Remove
            } else {
                MemberAction::UnknownSubcommand
            }
        },
    }
}

/// The reply where `~member` was given outside a project category.
pub fn outside_project_reply() -> (text: String)
    ensures
        text@ == outside_project_text(),
{
    "❌ 이 명령어는 프로젝트 내에서만 사용 가능합니다".to_owned()
}

/// The reply to a sub-command of `~member` that it does not know.
pub fn unknown_subcommand_reply() -> (text: String)
    ensures
        text@ == unknown_subcommand_text(),
{
    "❌ 알 수 없는 하위 명령어입니다. (사용 가능: add, remove)".to_owned()
}

/// The usage reply puts every listed member in exactly one of its two
/// sections: among those in the project where the project holds the
/// member's id, among those outside it otherwise.
pub proof fn law_usage_splits_members(listing: Seq<(u64, String)>, project: Set<u64>)
    ensures
        split_names(listing, project).0.len() + split_names(listing, project).1.len()
            == listing.len(),
        forall|i: int|
            0 <= i < listing.len() && project.contains(#[trigger] listing[i].0) ==> split_names(
                listing,
                project,
            ).0.contains(listing[i].1@),
        forall|i: int|
            0 <= i < listing.len() && !project.contains(#[trigger] listing[i].0) ==> split_names(
                listing,
                project,
            ).1.contains(listing[i].1@),
        forall|n: Seq<char>| #[trigger]
            split_names(listing, project).0.contains(n) ==> exists|i: int|
                0 <= i < listing.len() && project.contains(listing[i].0) && listing[i].1@ == n,
        forall|n: Seq<char>| #[trigger]
            split_names(listing, project).1.contains(n) ==> exists|i: int|
                0 <= i < listing.len() && !project.contains(listing[i].0) && listing[i].1@ == n,
    decreases listing.len(),
{
    if listing.len() > 0 {
        let rest = listing.drop_last();
        law_usage_splits_members(rest, project);
        let (inc, exc) = split_names(rest, project);
        let last = listing.last();
        assert forall|i: int|
            0 <= i < listing.len() && project.contains(#[trigger] listing[i].0) implies split_names(
            listing,
            project,
        ).0.contains(listing[i].1@) by {
            if i < listing.len() - 1 {
                assert(rest[i] == listing[i]);
                let j = choose|j: int| 0 <= j < inc.len() && inc[j] == rest[i].1@;
                if project.contains(last.0) {
                    assert(inc.push(last.1@)[j] == inc[j]);
                }
            } else if project.contains(last.0) {
                assert(inc.push(last.1@)[inc.len() as int] == last.1@);
            }
        }
        assert forall|i: int|
            0 <= i < listing.len() && !project.contains(#[trigger] listing[i].0) implies split_names(
            listing,
            project,
        ).1.contains(listing[i].1@) by {
            if i < listing.len() - 1 {
                assert(rest[i] == listing[i]);
                let j = choose|j: int| 0 <= j < exc.len() && exc[j] == rest[i].1@;
                if !project.contains(last.0) {
                    assert(exc.push(last.1@)[j] == exc[j]);
                }
            } else if !project.contains(last.0) {
                assert(exc.push(last.1@)[exc.len() as int] == last.1@);
            }
        }
        assert forall|n: Seq<char>| #[trigger]
            split_names(listing, project).0.contains(n) implies exists|i: int|
            0 <= i < listing.len() && project.contains(listing[i].0) && listing[i].1@ == n by {
            let all = split_names(listing, project).0;
            let j = choose|j: int| 0 <= j < all.len() && all[j] == n;
            if j < inc.len() {
                assert(all[j] == inc[j]);
                assert(inc.contains(n));
                let i = choose|i: int|
                    0 <= i < rest.len() && project.contains(rest[i].0) && rest[i].1@ == n;
                assert(listing[i] == rest[i]);
            } else {
                assert(listing[listing.len() - 1] == last);
            }
        }
        assert forall|n: Seq<char>| #[trigger]
            split_names(listing, project).1.contains(n) implies exists|i: int|
            0 <= i < listing.len() && !project.contains(listing[i].0) && listing[i].1@ == n by {
            let all = split_names(listing, project).1;
            let j = choose|j: int| 0 <= j < all.len() && all[j] == n;
            if j < exc.len() {
                assert(all[j] == exc[j]);
                assert(exc.contains(n));
                let i = choose|i: int|
                    0 <= i < rest.len() && !project.contains(rest[i].0) && rest[i].1@ == n;
                assert(listing[i] == rest[i]);
            } else {
                assert(listing[listing.len() - 1] == last);
            }
        }
    }
}

/// The display names, in listing order, of the listed members whose being
/// in the project is `inside`.
pub open spec fn names_where(listing: Seq<(u64, String)>, project: Set<u64>, inside: bool) -> Seq<Seq<char>> {
    listing.filter(|e: (u64, String)| project.contains(e.0) == inside).map_values(
        |e: (u64, String)| e.1@,
    )
}

proof fn lemma_split_names_filters(listing: Seq<(u64, String)>, project: Set<u64>)
    ensures
        split_names(listing, project).0 == names_where(listing, project, true),
        split_names(listing, project).1 == names_where(listing, project, false),
    decreases listing.len(),
{
    if listing.len() > 0 {
        let rest = listing.drop_last();
        let last = listing.last();
        lemma_split_names_filters(rest, project);
        assert(listing =~= rest.push(last));
        let pin = |e: (u64, String)| project.contains(e.0) == true;
        let pout = |e: (u64, String)| project.contains(e.0) == false;
        let name = |e: (u64, String)| e.1@;
        rest.lemma_filter_push(last, pin);
        rest.lemma_filter_push(last, pout);
        rest.filter(pin).lemma_push_map_commute(name, last);
        rest.filter(pout).lemma_push_map_commute(name, last);
        assert(names_where(listing, project, true) =~= split_names(listing, project).0);
        assert(names_where(listing, project, false) =~= split_names(listing, project).1);
    }
}

/// Writing names one per line: nothing for no names, a name and a line
/// break for one name, and the lines of two runs of names one after the other.
pub proof fn law_name_lines(a: Seq<Seq<char>>, b: Seq<Seq<char>>, x: Seq<char>)
    ensures
        name_lines(Seq::empty()) == Seq::<char>::empty(),
        name_lines(seq![x]) == x + "\n"@,
        name_lines(a + b) == name_lines(a) + name_lines(b),
    decreases b.len(),
{
    assert(seq![x].drop_last() =~= Seq::<Seq<char>>::empty());
    assert(name_lines(seq![x].drop_last()) == Seq::<char>::empty());
    assert(seq![x].last() == x);
    assert(name_lines(seq![x]) =~= x + "\n"@);
    if b.len() == 0 {
        assert(a + b =~= a);
        assert(name_lines(a) + name_lines(b) =~= name_lines(a));
    } else {
        law_name_lines(a, b.drop_last(), x);
        assert((a + b).drop_last() =~= a + b.drop_last());
        assert((a + b).last() == b.last());
        assert(name_lines(a + b) =~= name_lines(a) + name_lines(b));
    }
}

/// The usage reply is the usage line, then under its heading every listed
/// member outside the project, then under its heading every listed member in
/// it: each listed member's name shows up once, one per line, in the section
/// that its membership picks, in listing order.
pub proof fn law_usage_text_sections(listing: Seq<(u64, String)>, project: Set<u64>)
    ensures
        usage_text(listing, project) == usage_line() + excluded_heading() + name_lines(
            names_where(listing, project, false),
        ) + included_heading() + name_lines(names_where(listing, project, true)),
{
    lemma_split_names_filters(listing, project);
}

} // verus!
