use vstd::prelude::*;

use crate::cache::BotCache;

verus! {

/// One option of a slash command, as Discord hands it over: a name and a
/// value, where a sub-command's value is its own list of options.
pub struct CommandOption {
    pub name: String,
    pub value: CommandOptionValue,
}

/// The value of a slash command option; kinds that the bot never reads are
/// `Other`.
pub enum CommandOptionValue {
    SubCommand(Vec<CommandOption>),
    String(String),
    Other,
}

/// The first option in `opts` whose name is `name`.
pub open spec fn first_named(opts: Seq<CommandOption>, name: Seq<char>) -> Option<CommandOption>
    decreases opts.len(),
{
    if opts.len() == 0 {
        None
    } else if opts[0].name@ == name {
        Some(opts[0])
    } else {
        first_named(opts.drop_first(), name)
    }
}

/// The string value of the sub-command option called `name`, where `opt` is
/// a sub-command that has such an option and its value is a string.
pub open spec fn string_arg(opt: CommandOption, name: Seq<char>) -> Option<Seq<char>> {
    match opt.value {
        CommandOptionValue::SubCommand(subs) => match first_named(subs@, name) {
            Some(o) => match o.value {
                CommandOptionValue::String(v) => Some(v@),
                _ => None,
            },
            None => None,
        },
        _ => None,
    }
}

/// Reads the string value of the option `name` of a sub-command.
pub fn get_string_arg(opt: &CommandOption, name: &str) -> (r: Option<String>)
    ensures
        match r {
            Some(v) => string_arg(*opt, name@) == Some(v@),
            None => string_arg(*opt, name@) is None,
        },
{
    if let CommandOptionValue::SubCommand(sub_opts) = &opt.value {
        let wanted = name.to_owned();
        let n = sub_opts.len();
        let mut i: usize = 0;
        assert(sub_opts@.skip(0) =~= sub_opts@);
        while i < n
            invariant
                opt.value == CommandOptionValue::SubCommand(*sub_opts),
                n == sub_opts@.len(),
                i <= n,
                wanted@ == name@,
                first_named(sub_opts@, name@) == first_named(sub_opts@.skip(i as int), name@),
            decreases n - i,
        {
            assert(sub_opts@.skip(i as int).drop_first() =~= sub_opts@.skip(i + 1));
            if sub_opts[i].name == wanted {
                assert(sub_opts@.skip(i as int)[0] == sub_opts@[i as int]);
                assert(first_named(sub_opts@, name@) == Some(sub_opts@[i as int]));
                return match &sub_opts[i].value {
                    CommandOptionValue::String(val) => Some(val.clone()),
                    _ => None,
                };
            }
            i = i + 1;
        }
        assert(sub_opts@.skip(n as int).len() == 0);
        return None;
    }
    None
}

/// Whether `c` is an ASCII decimal digit.
pub open spec fn is_digit(c: char) -> bool {
    '0' <= c && c <= '9'
}

/// The number that a string of decimal digits writes.
pub open spec fn digits_value(s: Seq<char>) -> nat
    decreases s.len(),
{
    if s.len() == 0 {
        0
    } else {
        digits_value(s.drop_last()) * 10 + ((s.last() as nat) - ('0' as nat)) as nat
    }
}

/// The digits of a decimal number: the text after an optional leading `+`.
pub open spec fn number_digits(s: Seq<char>) -> Seq<char> {
    if s.len() > 0 && s[0] == '+' {
        s.drop_first()
    } else {
        s
    }
}

/// The `u64` that `s` writes in decimal, as Rust's parsing of unsigned
/// integers reads it: an optional `+`, then one digit or more, and a value
/// that fits in 64 bits. `None` for anything else.
pub open spec fn parse_u64(s: Seq<char>) -> Option<u64> {
    let d = number_digits(s);
    if d.len() > 0 && (forall|i: int| 0 <= i < d.len() ==> is_digit(#[trigger] d[i]))
        && digits_value(d) <= u64::MAX {
        Some(digits_value(d) as u64)
    } else {
        None
    }
}

proof fn lemma_digits_value_prefix(s: Seq<char>, k: int)
    requires
        0 <= k <= s.len(),
    ensures
        digits_value(s.take(k)) <= digits_value(s),
    decreases s.len(),
{
    if k < s.len() {
        assert(s.drop_last().take(k) =~= s.take(k));
        lemma_digits_value_prefix(s.drop_last(), k);
    } else {
        assert(s.take(k) =~= s);
    }
}

/// Reads a Discord user id written in decimal, the way Rust's
/// `str::parse::<u64>` reads it; `None` where the text is not a number that
/// fits in 64 bits. A 0 is returned as it is, though no Discord user has it.
pub fn convert_string_to_discord_id(id_str: &str) -> (r: Option<u64>)
    ensures
        r == parse_u64(id_str@),
{
    let len = id_str.unicode_len();
    let mut start: usize = 0;
    if len > 0 && id_str.get_char(0) == '+' {
        start = 1;
    }
    let ghost d = number_digits(id_str@);
    assert(d =~= id_str@.skip(start as int));
    if start == len {
        return None;
    }
    let mut value: u64 = 0;
    let mut i: usize = start;
    while i < len
        invariant
            len == id_str@.len(),
            start <= i <= len,
            d =~= id_str@.skip(start as int),
            d == number_digits(id_str@),
            forall|j: int| 0 <= j < i - start ==> is_digit(#[trigger] d[j]),
            value == digits_value(d.take(i - start)),
        decreases len - i,
    {
        let c = id_str.get_char(i);
        assert(c == d[i - start]);
        if !('0' <= c && c <= '9') {
            assert(!is_digit(d[i - start]));
            assert(!(forall|j: int| 0 <= j < d.len() ==> is_digit(#[trigger] d[j])));
            return None;
        }
        let digit: u64 = (c as u32 - '0' as u32) as u64;
        assert(d.take(i - start + 1).drop_last() =~= d.take(i - start));
        assert(d.take(i - start + 1).last() == c);
        assert(digits_value(d.take(i - start + 1)) == value * 10 + digit);
        let next = match value.checked_mul(10) {
            Some(tens) => tens.checked_add(digit),
            None => None,
        };
        match next {
            Some(v) => {
                value = v;
            },
            None => {
                proof {
                    if forall|j: int| 0 <= j < d.len() ==> is_digit(#[trigger] d[j]) {
                        lemma_digits_value_prefix(d, i - start + 1);
                    }
                }
                return None;
            },
        }
        i = i + 1;
    }
    assert(d.take(len - start) =~= d);
    Some(value)
}

/// Where a project name leads in the cache's project directory.
#[derive(PartialEq, Eq, Structural, Debug, Clone, Copy)]
pub enum ProjectLookup {
    /// The project's position in `project_vec`.
    Found(usize),
    /// No project has this name.
    UnknownName,
    /// The project's Notion id is known but not its position: the cache is
    /// behind and a reload is due.
    NotCached,
}

/// Where `name` leads through `project_name_to_id` and `project_id_mapping`.
pub open spec fn project_lookup(cache: &BotCache, name: Seq<char>) -> ProjectLookup {
    if !cache.project_name_to_id@.contains_key(name) {
        ProjectLookup::UnknownName
    } else {
        let id = cache.project_name_to_id@[name]@;
        if cache.project_id_mapping@.contains_key(id) {
            ProjectLookup::Found(cache.project_id_mapping@[id])
        } else {
            ProjectLookup::NotCached
        }
    }
}

/// Finds the position of a project, by its name, in the cache's project list.
pub fn get_project_idx_by_name(cache: &BotCache, project_name: &str) -> (r: ProjectLookup)
    ensures
        r == project_lookup(cache, project_name@),
{
    match cache.project_name_to_id.get(project_name) {
        None => ProjectLookup::UnknownName,
        Some(project_id) => match cache.project_id_mapping.get(project_id.as_str()) {
            Some(idx) => ProjectLookup::Found(*idx),
            None => ProjectLookup::NotCached,
        },
    }
}

/// The kind of a Discord guild channel, as far as the bot tells them apart.
#[derive(PartialEq, Eq, Structural, Debug, Clone, Copy)]
pub enum ChannelKind {
    Category,
    Other,
}

/// The project category of a command's channel: the parent channel, where
/// the channel has one and it is a category. `parent` is the parent's id and
/// kind, where both could be had.
pub fn get_project_category_id(parent: Option<(u64, ChannelKind)>) -> (r: Option<u64>)
    ensures
        r == match parent {
            Some((id, ChannelKind::Category)) => Some(id),
            _ => None::<u64>,
        },
{
    match parent {
        Some((id, ChannelKind::Category)) => Some(id),
        _ => None,
    }
}

/// The result of asking whether a user manages a project.
#[derive(PartialEq, Eq, Structural, Debug, Clone, Copy)]
pub struct PmCheck {
    /// The user is the project's manager.
    pub is_pm: bool,
    /// The project directory is behind; a reload of the cache is due.
    pub refresh: bool,
    /// The project's manager id reads as 0, which is no Discord user id.
    pub zero_pm_id: bool,
}

/// The manager id, as text, of the project called `name`, where the
/// directory leads to a project.
pub open spec fn pm_id_text(cache: &BotCache, name: Seq<char>) -> Option<Seq<char>> {
    match project_lookup(cache, name) {
        ProjectLookup::Found(idx) => if idx < cache.project_vec@.len() {
            Some(cache.project_vec@[idx as int].pm.id@)
        } else {
            None
        },
        _ => None,
    }
}

/// Whether `user_id` manages the project called `project_name`.
pub fn is_project_pm(cache: &BotCache, project_name: &str, user_id: u64) -> (r: PmCheck)
    ensures
        r.refresh == (project_lookup(cache, project_name@) == ProjectLookup::NotCached),
        r.zero_pm_id == (match pm_id_text(cache, project_name@) {
            Some(t) => parse_u64(t) == Some(0u64),
            None => false,
        }),
        r.is_pm == (match pm_id_text(cache, project_name@) {
            Some(t) => parse_u64(t) == Some(user_id) && user_id != 0,
            None => false,
        }),
{
    let lookup = get_project_idx_by_name(cache, project_name);
    let refresh = lookup == ProjectLookup::NotCached;
    let idx = match lookup {
        ProjectLookup::Found(idx) => idx,
        _ => return PmCheck { is_pm: false, refresh, zero_pm_id: false },
    };
    if idx >= cache.project_vec.len() {
        return PmCheck { is_pm: false, refresh, zero_pm_id: false };
    }
    let project = &cache.project_vec[idx];
    match convert_string_to_discord_id(project.pm.id.as_str()) {
        Some(pm_id) => {
            if pm_id == 0 {
                PmCheck { is_pm: false, refresh, zero_pm_id: true }
            } else {
                PmCheck { is_pm: pm_id == user_id, refresh, zero_pm_id: false }
            }
        },
        None => PmCheck { is_pm: false, refresh, zero_pm_id: false },
    }
}

/// Whether the user owns the server, where the server's owner could be had.
pub fn is_server_admin(owner_id: Option<u64>, user_id: u64) -> (r: bool)
    ensures
        r == (owner_id == Some(user_id)),
{
    match owner_id {
        Some(owner) => owner == user_id,
        None => false,
    }
}

/// The digit character for `d`, where `d < 10`.
pub open spec fn digit_char(d: nat) -> char {
    (('0' as nat) + d) as char
}

/// How `n` is written in decimal, with no sign and no leading zeros.
pub open spec fn decimal_text(n: nat) -> Seq<char>
    decreases n,
{
    if n < 10 {
        seq![digit_char(n)]
    } else {
        decimal_text(n / 10).push(digit_char(n % 10))
    }
}

proof fn lemma_decimal_text(n: nat)
    ensures
        decimal_text(n).len() > 0,
        forall|i: int| 0 <= i < decimal_text(n).len() ==> is_digit(#[trigger] decimal_text(n)[i]),
        digits_value(decimal_text(n)) == n,
    decreases n,
{
    let d = n % 10;
    assert(('0' as nat) + d <= 0x39);
    assert((digit_char(d) as nat) == ('0' as nat) + d);
    if n < 10 {
        let t = decimal_text(n);
        assert(t.drop_last() =~= Seq::<char>::empty());
        assert(t.last() == digit_char(n));
        assert(n % 10 == n);
        assert(digits_value(t.drop_last()) == 0);
        assert(digits_value(t) == digits_value(t.drop_last()) * 10 + d);
    } else {
        lemma_decimal_text(n / 10);
        let t = decimal_text(n);
        assert(t.drop_last() =~= decimal_text(n / 10));
        assert(t.last() == digit_char(d));
        assert(n == (n / 10) * 10 + d);
        assert(digits_value(t) == digits_value(t.drop_last()) * 10 + d);
        assert forall|i: int| 0 <= i < t.len() implies is_digit(#[trigger] t[i]) by {
            if i < t.len() - 1 {
                assert(t[i] == decimal_text(n / 10)[i]);
            }
        }
    }
}

/// Reading back the decimal text of an id gives the id: every `u64`, and so
/// every Discord user id, survives being written out and parsed again.
pub proof fn law_decimal_round_trip(n: u64)
    ensures
        parse_u64(decimal_text(n as nat)) == Some(n),
{
    lemma_decimal_text(n as nat);
    let t = decimal_text(n as nat);
    assert(t[0] != '+');
    assert(number_digits(t) == t);
}

/// The option that a sub-command option list yields for `name` is the first
/// one carrying that name, whatever the options before it hold; there is
/// none exactly when no option carries the name.
pub proof fn law_first_named_is_first_match(opts: Seq<CommandOption>, name: Seq<char>)
    ensures
        first_named(opts, name) is None <==> forall|i: int|
            0 <= i < opts.len() ==> (#[trigger] opts[i]).name@ != name,
        forall|i: int|
            0 <= i < opts.len() && (#[trigger] opts[i]).name@ == name && (forall|j: int|
                0 <= j < i ==> opts[j].name@ != name) ==> first_named(opts, name) == Some(opts[i]),
    decreases opts.len(),
{
    if opts.len() > 0 {
        let rest = opts.drop_first();
        law_first_named_is_first_match(rest, name);
        assert forall|i: int| 0 <= i < rest.len() implies rest[i] == opts[i + 1] by {}
        if opts[0].name@ != name {
            assert forall|i: int|
                0 <= i < opts.len() && (#[trigger] opts[i]).name@ == name && (forall|j: int|
                    0 <= j < i ==> opts[j].name@ != name) implies first_named(opts, name) == Some(
                opts[i],
            ) by {
                assert(i > 0);
                assert(rest[i - 1] == opts[i]);
                assert forall|j: int| 0 <= j < i - 1 implies rest[j].name@ != name by {
                    assert(rest[j] == opts[j + 1]);
                }
            }
            if first_named(opts, name) is None {
                assert forall|i: int| 0 <= i < opts.len() implies (#[trigger] opts[i]).name@
                    != name by {
                    if i > 0 {
                        assert(rest[i - 1] == opts[i]);
                    }
                }
            } else {
                let k = choose|k: int| 0 <= k < rest.len() && (#[trigger] rest[k]).name@ == name;
                assert(opts[k + 1] == rest[k]);
            }
        }
    }
}

/// Reading the string option `name` of a sub-command gives the string of the
/// first option called `name`, whatever kinds the options before it have;
/// nothing where that option holds no string, where no option has the name,
/// or where `opt` is no sub-command.
pub proof fn law_string_arg_reads_first_named_option(opt: CommandOption, name: Seq<char>)
    ensures
        match opt.value {
            CommandOptionValue::SubCommand(subs) => {
                &&& forall|i: int|
                    0 <= i < subs@.len() && (#[trigger] subs@[i]).name@ == name && (forall|j: int|
                        0 <= j < i ==> subs@[j].name@ != name) ==> match subs@[i].value {
                        CommandOptionValue::String(v) => string_arg(opt, name) == Some(v@),
                        _ => string_arg(opt, name) is None,
                    }
                &&& (forall|i: int| 0 <= i < subs@.len() ==> (#[trigger] subs@[i]).name@ != name)
                    ==> string_arg(opt, name) is None
            },
            _ => string_arg(opt, name) is None,
        },
{
    if let CommandOptionValue::SubCommand(subs) = opt.value {
        law_first_named_is_first_match(subs@, name);
    }
}

/// The directory leads `name` to position `idx` of the project list.
pub open spec fn directory_leads_to(cache: &BotCache, name: Seq<char>, idx: usize) -> bool {
    &&& cache.project_name_to_id@.contains_key(name)
    &&& cache.project_id_mapping@.contains_key(cache.project_name_to_id@[name]@)
    &&& cache.project_id_mapping@[cache.project_name_to_id@[name]@] == idx
}

/// A user is reported as a project's manager exactly when the directory
/// leads the project's name to a project in the list, wherever it sits
/// there, whose manager id reads as that user's (nonzero) id. A reload is
/// asked for exactly when the name is known but its Notion id has no
/// position, and a zero manager id is reported exactly when the project the
/// directory leads to has a manager id that reads as 0.
pub proof fn law_project_pm_check(cache: &BotCache, name: Seq<char>, user_id: u64)
    ensures
        (match pm_id_text(cache, name) {
            Some(t) => parse_u64(t) == Some(user_id) && user_id != 0,
            None => false,
        }) <==> exists|idx: usize|
            directory_leads_to(cache, name, idx) && idx < cache.project_vec@.len() && parse_u64(
                cache.project_vec@[idx as int].pm.id@,
            ) == Some(user_id) && user_id != 0,
        (match pm_id_text(cache, name) {
            Some(t) => parse_u64(t) == Some(0u64),
            None => false,
        }) <==> exists|idx: usize|
            directory_leads_to(cache, name, idx) && idx < cache.project_vec@.len() && parse_u64(
                cache.project_vec@[idx as int].pm.id@,
            ) == Some(0u64),
        (project_lookup(cache, name) == ProjectLookup::NotCached) <==> (
        cache.project_name_to_id@.contains_key(name)
            && !cache.project_id_mapping@.contains_key(cache.project_name_to_id@[name]@)),
        forall|idx: usize|
            directory_leads_to(cache, name, idx) ==> project_lookup(cache, name)
                == ProjectLookup::Found(idx),
        !cache.project_name_to_id@.contains_key(name) ==> project_lookup(cache, name)
            == ProjectLookup::UnknownName,
{
    if cache.project_name_to_id@.contains_key(name) && cache.project_id_mapping@.contains_key(
        cache.project_name_to_id@[name]@,
    ) {
        let idx = cache.project_id_mapping@[cache.project_name_to_id@[name]@];
        assert(directory_leads_to(cache, name, idx));
    }
}

/// `k` zero digits.
pub open spec fn zeros(k: nat) -> Seq<char> {
    Seq::new(k, |_i: int| '0')
}

proof fn lemma_digit_char_of_digit(c: char)
    requires
        is_digit(c),
    ensures
        digit_char((c as nat - '0' as nat) as nat) == c,
        ((c as nat) - ('0' as nat)) < 10,
{
}

proof fn lemma_zeros_value(k: nat, t: Seq<char>)
    ensures
        digits_value(zeros(k) + t) == digits_value(t),
    decreases t.len(), k,
{
    if t.len() == 0 {
        assert(zeros(k) + t =~= zeros(k));
        if k > 0 {
            assert(zeros(k).drop_last() =~= zeros((k - 1) as nat));
            lemma_zeros_value((k - 1) as nat, t);
            assert(zeros((k - 1) as nat) + t =~= zeros((k - 1) as nat));
        }
    } else {
        assert((zeros(k) + t).drop_last() =~= zeros(k) + t.drop_last());
        lemma_zeros_value(k, t.drop_last());
    }
}

proof fn lemma_digits_canonical(d: Seq<char>) -> (k: nat)
    requires
        d.len() > 0,
        forall|i: int| 0 <= i < d.len() ==> is_digit(#[trigger] d[i]),
    ensures
        d == zeros(k) + decimal_text(digits_value(d)),
    decreases d.len(),
{
    let c = d.last();
    assert(is_digit(d[d.len() - 1]));
    lemma_digit_char_of_digit(c);
    let cd = ((c as nat) - ('0' as nat)) as nat;
    if d.len() == 1 {
        assert(d.drop_last() =~= Seq::<char>::empty());
        assert(digits_value(d.drop_last()) == 0);
        assert(digits_value(d) == cd);
        assert(d =~= zeros(0) + decimal_text(cd));
        0
    } else {
        let e = d.drop_last();
        assert forall|i: int| 0 <= i < e.len() implies is_digit(#[trigger] e[i]) by {
            assert(e[i] == d[i]);
        }
        let k1 = lemma_digits_canonical(e);
        let v1 = digits_value(e);
        let v = digits_value(d);
        assert(v == v1 * 10 + cd);
        if v1 == 0 {
            assert(decimal_text(0) =~= seq![digit_char(0)]);
            assert(e =~= zeros(k1 + 1));
            assert(decimal_text(v) =~= seq![c]);
            assert(d =~= zeros(k1 + 1) + decimal_text(v));
            k1 + 1
        } else {
            assert(v / 10 == v1);
            assert(v % 10 == cd);
            assert(decimal_text(v) =~= decimal_text(v1).push(c));
            assert(d =~= e.push(c));
            assert(zeros(k1) + decimal_text(v1).push(c) =~= (zeros(k1) + decimal_text(v1)).push(c));
            assert(d =~= zeros(k1) + decimal_text(v));
            k1
        }
    }
}

/// `n` written in decimal after `k` zeros, and after a `+` where `plus`.
pub open spec fn decimal_form(plus: bool, k: nat, n: nat) -> Seq<char> {
    (if plus {
        seq!['+']
    } else {
        Seq::<char>::empty()
    }) + zeros(k) + decimal_text(n)
}

/// A text reads as the number `n` exactly when it is `n` written in
/// decimal, after an optional `+` and any number of leading zeros: nothing
/// else (no blanks, signs other than one leading `+`, other characters, or
/// cut-off digits) is read as a number.
pub proof fn law_parse_u64_reads_decimal(s: Seq<char>, n: u64)
    ensures
        parse_u64(s) == Some(n) <==> exists|plus: bool, k: nat|
            s == #[trigger] decimal_form(plus, k, n as nat),
{
    if parse_u64(s) == Some(n) {
        let d = number_digits(s);
        let k = lemma_digits_canonical(d);
        let plus = s.len() > 0 && s[0] == '+';
        assert(digits_value(d) == n as nat);
        if plus {
            assert(s =~= seq!['+'] + d);
            assert(s =~= decimal_form(true, k, n as nat));
        } else {
            assert(s =~= decimal_form(false, k, n as nat));
        }
    }
    if exists|plus: bool, k: nat| s == #[trigger] decimal_form(plus, k, n as nat) {
        let (plus, k) = choose|plus: bool, k: nat| s == #[trigger] decimal_form(plus, k, n as nat);
        lemma_decimal_text(n as nat);
        let t = decimal_text(n as nat);
        let d = zeros(k) + t;
        assert(d[0] != '+') by {
            if k > 0 {
                assert(d[0] == '0');
            } else {
                assert(d[0] == t[0]);
            }
        }
        if plus {
            assert(s.drop_first() =~= d);
        } else {
            assert(s =~= d);
        }
        assert(number_digits(s) == d);
        assert forall|i: int| 0 <= i < d.len() implies is_digit(#[trigger] d[i]) by {
            if i >= k {
                assert(d[i] == t[i - k]);
            }
        }
        lemma_zeros_value(k, t);
    }
}

} // verus!
