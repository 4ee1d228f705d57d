//! Building the catalog: commands grouped into categories, one page of text
//! per category.
use indexmap::IndexMap;
use vstd::prelude::*;

verus! {

#[verifier::external_type_specification]
#[verifier::external_body]
#[verifier::reject_recursive_types(K)]
#[verifier::reject_recursive_types(V)]
#[verifier::reject_recursive_types(S)]
pub struct ExIndexMap<K, V, S>(IndexMap<K, V, S>);

/// The entries of a grouping map, in the map's order: each category key with
/// the registry positions filed under it.
pub uninterp spec fn group_entries(m: IndexMap<Option<String>, Vec<usize>>) -> Seq<(Option<Seq<char>>, Seq<usize>)>;

pub type Groups = Seq<(Option<Seq<char>>, Seq<usize>)>;

/// Position of the first group whose key is `key`, or -1 when there is none.
pub open spec fn key_position(g: Groups, key: Option<Seq<char>>) -> int
    decreases g.len(),
{
    if g.len() == 0 {
        -1
    } else {
        let p = key_position(g.drop_last(), key);
        if p >= 0 {
            p
        } else if g.last().0 == key {
            g.len() - 1
        } else {
            -1
        }
    }
}

/// Files `item` under `key`: appended to the key's group, or to a new group
/// at the end when the key is new.
pub open spec fn add_member(g: Groups, key: Option<Seq<char>>, item: usize) -> Groups {
    let p = key_position(g, key);
    if p >= 0 {
        g.update(p, (key, g[p].1.push(item)))
    } else {
        g.push((key, seq![item]))
    }
}

/// Registry positions grouped by key, keys in order of first appearance.
pub open spec fn grouping(keys: Seq<Option<Seq<char>>>) -> Groups
    decreases keys.len(),
{
    if keys.len() == 0 {
        Seq::empty()
    } else {
        add_member(grouping(keys.drop_last()), keys.last(), (keys.len() - 1) as usize)
    }
}

/// The distinct elements of `s` in order of first appearance.
pub open spec fn first_seen<K>(s: Seq<K>) -> Seq<K>
    decreases s.len(),
{
    if s.len() == 0 {
        Seq::empty()
    } else {
        let r = first_seen(s.drop_last());
        if r.contains(s.last()) {
            r
        } else {
            r.push(s.last())
        }
    }
}

pub open spec fn keys_of(g: Groups) -> Seq<Option<Seq<char>>> {
    g.map_values(|e: (Option<Seq<char>>, Seq<usize>)| e.0)
}

/// Relies on `IndexMap::new`: a new map has no entries.
#[verifier::external_body]
fn empty_groups() -> (m: IndexMap<Option<String>, Vec<usize>>)
    ensures
        group_entries(m) == Seq::<(Option<Seq<char>>, Seq<usize>)>::empty(),
{
    IndexMap::new()
}

/// Relies on `IndexMap::entry` with `Entry::or_default`: an occupied key's
/// vector is extended in place; a vacant key is appended after all others
/// with an empty vector, which is then extended.
#[verifier::external_body]
fn add_to_group(m: &mut IndexMap<Option<String>, Vec<usize>>, key: Option<String>, item: usize)
    ensures
        group_entries(*final(m)) == add_member(group_entries(*old(m)), key.deep_view(), item),
{
    m.entry(key).or_default().push(item);
}

/// Relies on `IndexMap`'s `IntoIterator`: entries come out in map order.
#[verifier::external_body]
fn into_group_list(m: IndexMap<Option<String>, Vec<usize>>) -> (r: Vec<(Option<String>, Vec<usize>)>)
    ensures
        r.deep_view() == group_entries(m),
{
    m.into_iter().collect()
}

fn clone_key(o: &Option<String>) -> (r: Option<String>)
    ensures
        r == *o,
{
    match o {
        Some(s) => Some(s.clone()),
        None => None,
    }
}

/// Groups registry positions `0..keys.len()` by their key.
pub fn group_commands(keys: &Vec<Option<String>>) -> (r: Vec<(Option<String>, Vec<usize>)>)
    ensures
        r.deep_view() == grouping(keys.deep_view()),
{
    let mut m = empty_groups();
    let mut i: usize = 0;
    assert(keys.deep_view().take(0) =~= Seq::<Option<Seq<char>>>::empty());
    while i < keys.len()
        invariant
            i <= keys.len(),
            group_entries(m) == grouping(keys.deep_view().take(i as int)),
        decreases keys.len() - i,
    {
        let k = clone_key(&keys[i]);
        add_to_group(&mut m, k, i);
        assert(keys.deep_view().take(i + 1).drop_last() =~= keys.deep_view().take(i as int));
        i = i + 1;
    }
    assert(keys.deep_view().take(i as int) =~= keys.deep_view());
    into_group_list(m)
}

proof fn lemma_key_position(g: Groups, key: Option<Seq<char>>)
    ensures
        -1 <= key_position(g, key) < g.len(),
        key_position(g, key) >= 0 ==> g[key_position(g, key)].0 == key,
        key_position(g, key) < 0 ==> !keys_of(g).contains(key),
    decreases g.len(),
{
    if g.len() > 0 {
        lemma_key_position(g.drop_last(), key);
        if key_position(g, key) < 0 {
            assert forall|j: int| 0 <= j < g.len() implies keys_of(g)[j] != key by {
                if j < g.len() - 1 {
                    assert(keys_of(g.drop_last())[j] == keys_of(g)[j]);
                }
            }
        }
    }
}

/// Categories come out in the order in which the registry first mentions them.
pub proof fn lemma_category_order(keys: Seq<Option<Seq<char>>>)
    ensures
        keys_of(grouping(keys)) == first_seen(keys),
    decreases keys.len(),
{
    if keys.len() > 0 {
        let prev = grouping(keys.drop_last());
        let k = keys.last();
        lemma_category_order(keys.drop_last());
        lemma_key_position(prev, k);
        let p = key_position(prev, k);
        if p >= 0 {
            assert(keys_of(prev)[p] == k);
            assert(keys_of(grouping(keys)) =~= keys_of(prev));
        } else {
            assert(keys_of(grouping(keys)) =~= keys_of(prev).push(k));
        }
    }
}

/// Every position filed in a group is a position of the registry.
pub proof fn lemma_members_in_range(keys: Seq<Option<Seq<char>>>)
    ensures
        forall|gi: int, j: int|
            0 <= gi < grouping(keys).len() && 0 <= j < grouping(keys)[gi].1.len()
                ==> #[trigger] grouping(keys)[gi].1[j] < keys.len(),
    decreases keys.len(),
{
    if keys.len() > 0 {
        let prev = grouping(keys.drop_last());
        lemma_members_in_range(keys.drop_last());
        lemma_key_position(prev, keys.last());
        let g = grouping(keys);
        assert forall|gi: int, j: int|
            0 <= gi < g.len() && 0 <= j < g[gi].1.len() implies #[trigger] g[gi].1[j] < keys.len() by {
            if gi < prev.len() && j < prev[gi].1.len() {
                assert(g[gi].1[j] == prev[gi].1[j]);
            }
        }
    }
}

/// A parameter of a command, as the detail view lists it.
pub struct ParamInfo {
    pub name: String,
    pub description: Option<String>,
}

/// A subcommand, listed under its parent.
pub struct SubcommandInfo {
    pub name: String,
    pub description: Option<String>,
    pub hidden: bool,
    pub parameters: Vec<ParamInfo>,
}

/// What the catalog reads of a registered command.
pub struct CommandInfo {
    pub name: String,
    pub description: Option<String>,
    pub category: Option<String>,
    pub hidden: bool,
    /// The kind of context-menu action, already rendered as text, when the
    /// command is one.
    pub context_menu: Option<String>,
    pub parameters: Vec<ParamInfo>,
    pub subcommands: Vec<SubcommandInfo>,
}

/// The answer of the per-invocation command filter for one command.
pub enum FilterOutcome {
    /// No filter is configured.
    Unfiltered,
    Keep,
    Drop,
    /// The filter failed; catalog construction stops with this message.
    Failed(String),
}

/// The answer of one permission check.
#[derive(Clone, Copy, Debug, PartialEq, Eq, Structural)]
pub enum CheckOutcome {
    Allowed,
    Denied,
    Errored,
}

/// The filter's answer and the answers of the permission checks, in order,
/// for one command.
pub struct CommandGate {
    pub filter: FilterOutcome,
    pub checks: Vec<CheckOutcome>,
}

/// One category of the catalog: its label and its text.
pub struct Page {
    pub category: String,
    pub body: String,
}

impl View for Page {
    type V = (Seq<char>, Seq<char>);

    open spec fn view(&self) -> (Seq<char>, Seq<char>) {
        (self.category@, self.body@)
    }
}

pub open spec fn pages_view(s: Seq<Page>) -> Seq<(Seq<char>, Seq<char>)> {
    s.map_values(|p: Page| p@)
}

pub open spec fn all_allowed(checks: Seq<CheckOutcome>) -> bool {
    forall|i: int| 0 <= i < checks.len() ==> checks[i] == CheckOutcome::Allowed
}

/// Whether a command is listed: `Err` carries a filter failure.
pub open spec fn admitted(cmd: CommandInfo, gate: CommandGate) -> Result<bool, Seq<char>> {
    if cmd.hidden {
        Ok(false)
    } else {
        match gate.filter {
            FilterOutcome::Failed(e) => Err(e@),
            FilterOutcome::Drop => Ok(false),
            _ => Ok(all_allowed(gate.checks@)),
        }
    }
}

pub open spec fn text_or(d: Option<String>, fallback: Seq<char>) -> Seq<char> {
    match d {
        Some(s) => s@,
        None => fallback,
    }
}

pub open spec fn no_description() -> Seq<char> {
    "*No description available yet*"@
}

pub open spec fn subcommand_line(cmd_name: Seq<char>, sub: SubcommandInfo, prefix: Seq<char>) -> Seq<char> {
    "/"@ + cmd_name + " "@ + sub.name@ + " | "@ + prefix + cmd_name + " "@ + sub.name@ + " - "@
        + text_or(sub.description, no_description()) + "\n"@
}

/// The lines of the subcommands that are not hidden.
pub open spec fn subcommand_block(cmd_name: Seq<char>, subs: Seq<SubcommandInfo>, prefix: Seq<char>) -> Seq<char>
    decreases subs.len(),
{
    if subs.len() == 0 {
        Seq::empty()
    } else {
        let r = subcommand_block(cmd_name, subs.drop_last(), prefix);
        if subs.last().hidden {
            r
        } else {
            r + subcommand_line(cmd_name, subs.last(), prefix)
        }
    }
}

/// The text that lists one command in its category's page.
pub open spec fn entry_text(cmd: CommandInfo, prefix: Seq<char>) -> Seq<char> {
    let head = "/"@ + cmd.name@ + " - "@ + text_or(cmd.description, no_description()) + "\n"@;
    match cmd.context_menu {
        Some(kind) => head + "*This command is a context menu command of type "@ + kind@ + "*\n"@,
        None => if cmd.subcommands@.len() == 0 {
            head
        } else {
            head + "**Subcommands**\n"@ + subcommand_block(cmd.name@, cmd.subcommands@, prefix)
        },
    }
}

/// The text of one category: the entries of its admitted members in order,
/// or the first filter failure.
pub open spec fn group_body(
    cmds: Seq<CommandInfo>,
    gates: Seq<CommandGate>,
    members: Seq<usize>,
    prefix: Seq<char>,
) -> Result<Seq<char>, Seq<char>>
    decreases members.len(),
{
    if members.len() == 0 {
        Ok(Seq::empty())
    } else {
        match group_body(cmds, gates, members.drop_last(), prefix) {
            Err(e) => Err(e),
            Ok(b) => {
                let i = members.last() as int;
                match admitted(cmds[i], gates[i]) {
                    Err(e) => Err(e),
                    Ok(true) => Ok(b + entry_text(cmds[i], prefix)),
                    Ok(false) => Ok(b),
                }
            },
        }
    }
}

pub open spec fn category_label(key: Option<Seq<char>>) -> Seq<char> {
    match key {
        Some(k) => k,
        None => "Uncategorized"@,
    }
}

/// One page per group, in group order, or the first filter failure.
pub open spec fn group_pages(
    cmds: Seq<CommandInfo>,
    gates: Seq<CommandGate>,
    groups: Groups,
    prefix: Seq<char>,
) -> Result<Seq<(Seq<char>, Seq<char>)>, Seq<char>>
    decreases groups.len(),
{
    if groups.len() == 0 {
        Ok(Seq::empty())
    } else {
        match group_pages(cmds, gates, groups.drop_last(), prefix) {
            Err(e) => Err(e),
            Ok(ps) => match group_body(cmds, gates, groups.last().1, prefix) {
                Err(e) => Err(e),
                Ok(b) => Ok(ps.push((category_label(groups.last().0), b))),
            },
        }
    }
}

/// The catalog of a registry whose commands are grouped under `keys`.
pub open spec fn catalog(
    cmds: Seq<CommandInfo>,
    keys: Seq<Option<Seq<char>>>,
    gates: Seq<CommandGate>,
    prefix: Seq<char>,
) -> Result<Seq<(Seq<char>, Seq<char>)>, Seq<char>> {
    group_pages(cmds, gates, grouping(keys), prefix)
}

pub open spec fn catalog_view(r: Result<Vec<Page>, String>) -> Result<Seq<(Seq<char>, Seq<char>)>, Seq<char>> {
    match r {
        Ok(ps) => Ok(pages_view(ps@)),
        Err(e) => Err(e@),
    }
}

pub open spec fn admission_view(r: Result<bool, String>) -> Result<bool, Seq<char>> {
    match r {
        Ok(b) => Ok(b),
        Err(e) => Err(e@),
    }
}

/// Whether every permission check allowed the command; stops at the first
/// answer that is not `Allowed`, so an errored check hides the command too.
pub fn checks_pass(checks: &Vec<CheckOutcome>) -> (r: bool)
    ensures
        r == all_allowed(checks@),
{
    let mut i: usize = 0;
    while i < checks.len()
        invariant
            i <= checks.len(),
            forall|j: int| 0 <= j < i ==> checks@[j] == CheckOutcome::Allowed,
        decreases checks.len() - i,
    {
        if checks[i] != CheckOutcome::Allowed {
            return false;
        }
        i = i + 1;
    }
    true
}

/// Decides whether a command is listed, from its visibility, the filter's
/// answer and the permission checks' answers.
pub fn admission(cmd: &CommandInfo, gate: &CommandGate) -> (r: Result<bool, String>)
    ensures
        admission_view(r) == admitted(*cmd, *gate),
{
    if cmd.hidden {
        return Ok(false);
    }
    match &gate.filter {
        FilterOutcome::Failed(e) => Err(e.clone()),
        FilterOutcome::Drop => Ok(false),
        _ => Ok(checks_pass(&gate.checks)),
    }
}

fn text_or_default(d: &Option<String>) -> (r: String)
    ensures
        r@ == text_or(*d, no_description()),
{
    match d {
        Some(s) => s.clone(),
        None => String::from_str("*No description available yet*"),
    }
}

/// The text that lists `cmd` on its page.
pub fn entry_text_of(cmd: &CommandInfo, prefix: &str) -> (r: String)
    ensures
        r@ == entry_text(*cmd, prefix@),
{
    let mut s = String::from_str("/");
    s.append(cmd.name.as_str());
    s.append(" - ");
    let d = text_or_default(&cmd.description);
    s.append(d.as_str());
    s.append("\n");
    match &cmd.context_menu {
        Some(kind) => {
            s.append("*This command is a context menu command of type ");
            s.append(kind.as_str());
            s.append("*\n");
            return s;
        },
        None => {},
    }
    if cmd.subcommands.len() == 0 {
        return s;
    }
    s.append("**Subcommands**\n");
    let ghost head = s@;
    let subs = &cmd.subcommands;
    let mut i: usize = 0;
    assert(subs@.take(0) =~= Seq::<SubcommandInfo>::empty());
    assert(head + subcommand_block(cmd.name@, subs@.take(0), prefix@) =~= head);
    while i < subs.len()
        invariant
            i <= subs.len(),
            subs == cmd.subcommands,
            s@ == head + subcommand_block(cmd.name@, subs@.take(i as int), prefix@),
        decreases subs.len() - i,
    {
        let sub = &subs[i];
        let ghost before = s@;
        assert(subs@.take(i + 1).drop_last() =~= subs@.take(i as int));
        if !sub.hidden {
            s.append("/");
            s.append(cmd.name.as_str());
            s.append(" ");
            s.append(sub.name.as_str());
            s.append(" | ");
            s.append(prefix);
            s.append(cmd.name.as_str());
            s.append(" ");
            s.append(sub.name.as_str());
            s.append(" - ");
            let d = text_or_default(&sub.description);
            s.append(d.as_str());
            s.append("\n");
            assert(s@ =~= before + subcommand_line(cmd.name@, subs@[i as int], prefix@));
        }
        i = i + 1;
    }
    assert(subs@.take(i as int) =~= subs@);
    s
}

proof fn lemma_body_error_persists(
    cmds: Seq<CommandInfo>,
    gates: Seq<CommandGate>,
    members: Seq<usize>,
    k: int,
    prefix: Seq<char>,
)
    requires
        0 <= k <= members.len(),
        group_body(cmds, gates, members.take(k), prefix) is Err,
    ensures
        group_body(cmds, gates, members, prefix) == group_body(cmds, gates, members.take(k), prefix),
    decreases members.len() - k,
{
    if k < members.len() {
        assert(members.take(k + 1).drop_last() =~= members.take(k));
        lemma_body_error_persists(cmds, gates, members, k + 1, prefix);
    } else {
        assert(members.take(k) =~= members);
    }
}

proof fn lemma_pages_error_persists(
    cmds: Seq<CommandInfo>,
    gates: Seq<CommandGate>,
    groups: Groups,
    k: int,
    prefix: Seq<char>,
)
    requires
        0 <= k <= groups.len(),
        group_pages(cmds, gates, groups.take(k), prefix) is Err,
    ensures
        group_pages(cmds, gates, groups, prefix) == group_pages(cmds, gates, groups.take(k), prefix),
    decreases groups.len() - k,
{
    if k < groups.len() {
        assert(groups.take(k + 1).drop_last() =~= groups.take(k));
        lemma_pages_error_persists(cmds, gates, groups, k + 1, prefix);
    } else {
        assert(groups.take(k) =~= groups);
    }
}

/// Renders the catalog: one page per category, categories in order of first
/// appearance, each page listing its admitted commands in registry order.
/// `keys[i]` is the category under which `commands[i]` is grouped.
pub fn build_catalog(
    commands: &Vec<CommandInfo>,
    keys: &Vec<Option<String>>,
    gates: &Vec<CommandGate>,
    prefix: &str,
) -> (r: Result<Vec<Page>, String>)
    requires
        keys.len() == commands.len(),
        gates.len() == commands.len(),
    ensures
        catalog_view(r) == catalog(commands@, keys.deep_view(), gates@, prefix@),
{
    let groups = group_commands(keys);
    let ghost g = grouping(keys.deep_view());
    proof {
        lemma_members_in_range(keys.deep_view());
    }
    let mut pages: Vec<Page> = Vec::new();
    let mut gi: usize = 0;
    assert(g.take(0) =~= Seq::<(Option<Seq<char>>, Seq<usize>)>::empty());
    assert(pages_view(pages@) =~= Seq::<(Seq<char>, Seq<char>)>::empty());
    while gi < groups.len()
        invariant
            gi <= groups.len(),
            groups.deep_view() == g,
            g == grouping(keys.deep_view()),
            keys.len() == commands.len(),
            gates.len() == commands.len(),
            forall|a: int, b: int|
                0 <= a < g.len() && 0 <= b < g[a].1.len() ==> #[trigger] g[a].1[b] < keys.len(),
            group_pages(commands@, gates@, g.take(gi as int), prefix@) == Ok::<Seq<(Seq<char>, Seq<char>)>, Seq<char>>(pages_view(pages@)),
        decreases groups.len() - gi,
    {
        let entry = &groups[gi];
        let members = &entry.1;
        assert(members@ == g[gi as int].1);
        let mut body = String::new();
        let mut j: usize = 0;
        assert(members@.take(0) =~= Seq::<usize>::empty());
        while j < members.len()
            invariant
                j <= members.len(),
                members@ == g[gi as int].1,
                gi < g.len(),
                keys.len() == commands.len(),
                gates.len() == commands.len(),
                forall|a: int, b: int|
                    0 <= a < g.len() && 0 <= b < g[a].1.len() ==> #[trigger] g[a].1[b] < keys.len(),
                group_body(commands@, gates@, members@.take(j as int), prefix@) == Ok::<Seq<char>, Seq<char>>(body@),
                g == grouping(keys.deep_view()),
                group_pages(commands@, gates@, g.take(gi as int), prefix@) == Ok::<Seq<(Seq<char>, Seq<char>)>, Seq<char>>(pages_view(pages@)),
            decreases members.len() - j,
        {
            let c = members[j];
            assert(g[gi as int].1[j as int] == c);
            assert(members@.take(j + 1).drop_last() =~= members@.take(j as int));
            assert(members@.take(j + 1).last() == c);
            match admission(&commands[c], &gates[c]) {
                Err(e) => {
                    proof {
                        assert(group_body(commands@, gates@, members@.take(j + 1), prefix@) == Err::<Seq<char>, Seq<char>>(e@));
                        lemma_body_error_persists(commands@, gates@, members@, j + 1, prefix@);
                        assert(g.take(gi + 1).drop_last() =~= g.take(gi as int));
                        assert(g.take(gi + 1).last() == g[gi as int]);
                        assert(group_pages(commands@, gates@, g.take(gi + 1), prefix@) == Err::<Seq<(Seq<char>, Seq<char>)>, Seq<char>>(e@));
                        lemma_pages_error_persists(commands@, gates@, g, gi + 1, prefix@);
                    }
                    return Err(e);
                },
                Ok(true) => {
                    let t = entry_text_of(&commands[c], prefix);
                    body.append(t.as_str());
                },
                Ok(false) => {},
            }
            j = j + 1;
        }
        assert(members@.take(j as int) =~= members@);
        let label = match &entry.0 {
            Some(k) => k.clone(),
            None => String::from_str("Uncategorized"),
        };
        assert(label@ == category_label(g[gi as int].0));
        let ghost before = pages@;
        pages.push(Page { category: label, body });
        assert(g.take(gi + 1).drop_last() =~= g.take(gi as int));
        assert(pages_view(pages@) =~= pages_view(before).push((category_label(g[gi as int].0), body@)));
        gi = gi + 1;
    }
    assert(g.take(gi as int) =~= g);
    Ok(pages)
}

/// The raw category of each command, for grouping when no renaming applies.
pub fn category_keys(commands: &Vec<CommandInfo>) -> (r: Vec<Option<String>>)
    ensures
        r.len() == commands.len(),
        forall|i: int| 0 <= i < commands.len() ==> #[trigger] r@[i] == commands@[i].category,
{
    let mut r: Vec<Option<String>> = Vec::new();
    let mut i: usize = 0;
    while i < commands.len()
        invariant
            i <= commands.len(),
            r.len() == i,
            forall|j: int| 0 <= j < i ==> #[trigger] r@[j] == commands@[j].category,
        decreases commands.len() - i,
    {
        r.push(clone_key(&commands[i].category));
        i = i + 1;
    }
    r
}

/// The members of a group that are not hidden, in order.
pub open spec fn visible_members(cmds: Seq<CommandInfo>, members: Seq<usize>) -> Seq<usize>
    decreases members.len(),
{
    if members.len() == 0 {
        Seq::empty()
    } else {
        let r = visible_members(cmds, members.drop_last());
        if cmds[members.last() as int].hidden {
            r
        } else {
            r.push(members.last())
        }
    }
}

/// A hidden command adds nothing to its page, whatever its filter and checks
/// answered: the page reads as if only the visible members were in it.
pub proof fn lemma_hidden_commands_unlisted(
    cmds: Seq<CommandInfo>,
    gates: Seq<CommandGate>,
    members: Seq<usize>,
    prefix: Seq<char>,
)
    ensures
        group_body(cmds, gates, members, prefix) == group_body(
            cmds,
            gates,
            visible_members(cmds, members),
            prefix,
        ),
    decreases members.len(),
{
    if members.len() > 0 {
        lemma_hidden_commands_unlisted(cmds, gates, members.drop_last(), prefix);
        let v = visible_members(cmds, members);
        if !cmds[members.last() as int].hidden {
            assert(v.drop_last() =~= visible_members(cmds, members.drop_last()));
        }
    }
}

/// The labels of the pages, in order, when the catalog is built.
pub open spec fn page_labels(ps: Seq<(Seq<char>, Seq<char>)>) -> Seq<Seq<char>> {
    ps.map_values(|p: (Seq<char>, Seq<char>)| p.0)
}

proof fn lemma_group_page_labels(
    cmds: Seq<CommandInfo>,
    gates: Seq<CommandGate>,
    groups: Groups,
    prefix: Seq<char>,
)
    requires
        group_pages(cmds, gates, groups, prefix) is Ok,
    ensures
        page_labels(group_pages(cmds, gates, groups, prefix)->Ok_0) == keys_of(groups).map_values(
            |k: Option<Seq<char>>| category_label(k),
        ),
    decreases groups.len(),
{
    if groups.len() > 0 {
        lemma_group_page_labels(cmds, gates, groups.drop_last(), prefix);
        let ps = group_pages(cmds, gates, groups, prefix)->Ok_0;
        let prev = group_pages(cmds, gates, groups.drop_last(), prefix)->Ok_0;
        let b = group_body(cmds, gates, groups.last().1, prefix)->Ok_0;
        assert(ps == prev.push((category_label(groups.last().0), b)));
        assert(page_labels(prev).len() == prev.len());
        assert(ps.len() == groups.len());
        assert(ps.last().0 == category_label(groups.last().0));
        assert forall|i: int| 0 <= i < groups.len() - 1 implies #[trigger] page_labels(ps)[i] == category_label(groups[i].0) by {
            assert(ps[i] == prev[i]);
            assert(page_labels(prev)[i] == category_label(keys_of(groups.drop_last())[i]));
        }
        assert(page_labels(ps) =~= keys_of(groups).map_values(|k: Option<Seq<char>>| category_label(k)));
    }
}

/// The pages of a built catalog carry the categories' labels in the order in
/// which the registry first mentions each category.
pub proof fn lemma_page_order(
    cmds: Seq<CommandInfo>,
    keys: Seq<Option<Seq<char>>>,
    gates: Seq<CommandGate>,
    prefix: Seq<char>,
)
    requires
        catalog(cmds, keys, gates, prefix) is Ok,
    ensures
        page_labels(catalog(cmds, keys, gates, prefix)->Ok_0) == first_seen(keys).map_values(
            |k: Option<Seq<char>>| category_label(k),
        ),
{
    lemma_group_page_labels(cmds, gates, grouping(keys), prefix);
    lemma_category_order(keys);
}

/// The groups with their hidden members left out.
pub open spec fn visible_groups(cmds: Seq<CommandInfo>, groups: Groups) -> Groups {
    groups.map_values(|e: (Option<Seq<char>>, Seq<usize>)| (e.0, visible_members(cmds, e.1)))
}

/// Hidden commands add nothing to any page: the whole catalog reads as if
/// every category held only its visible commands.
pub proof fn lemma_hidden_commands_unlisted_everywhere(
    cmds: Seq<CommandInfo>,
    gates: Seq<CommandGate>,
    groups: Groups,
    prefix: Seq<char>,
)
    ensures
        group_pages(cmds, gates, groups, prefix) == group_pages(
            cmds,
            gates,
            visible_groups(cmds, groups),
            prefix,
        ),
    decreases groups.len(),
{
    if groups.len() > 0 {
        lemma_hidden_commands_unlisted_everywhere(cmds, gates, groups.drop_last(), prefix);
        lemma_hidden_commands_unlisted(cmds, gates, groups.last().1, prefix);
        assert(visible_groups(cmds, groups).drop_last() =~= visible_groups(cmds, groups.drop_last()));
    }
}

} // verus!
