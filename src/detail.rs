//! The detail view of one command: its parameters and its subcommands'.
use crate::catalog::{text_or, CommandInfo, ParamInfo, SubcommandInfo};
use vstd::prelude::*;

verus! {

/// A named section of the detail view.
pub struct DetailField {
    pub name: String,
    pub value: String,
}

/// The detail view of one command.
pub struct Detail {
    pub title: String,
    pub description: String,
    pub fields: Vec<DetailField>,
}

pub open spec fn plain_no_description() -> Seq<char> {
    "No description available yet"@
}

/// One parameter's line; subcommand parameters show their name emphasised.
pub open spec fn param_line(p: ParamInfo, emphasised: bool) -> Seq<char> {
    let name = if emphasised {
        "*"@ + p.name@ + "*"@
    } else {
        p.name@
    };
    name + " - "@ + text_or(p.description, plain_no_description())
}

/// The parameters' lines joined by newlines.
pub open spec fn param_lines(params: Seq<ParamInfo>, emphasised: bool) -> Seq<char>
    decreases params.len(),
{
    if params.len() == 0 {
        Seq::empty()
    } else if params.len() == 1 {
        param_line(params[0], emphasised)
    } else {
        param_lines(params.drop_last(), emphasised) + "\n"@ + param_line(params.last(), emphasised)
    }
}

/// Position of the first command called `name`, or -1 when there is none.
pub open spec fn find_command(cmds: Seq<CommandInfo>, name: Seq<char>) -> int
    decreases cmds.len(),
{
    if cmds.len() == 0 {
        -1
    } else {
        let p = find_command(cmds.drop_last(), name);
        if p >= 0 {
            p
        } else if cmds.last().name@ == name {
            cmds.len() - 1
        } else {
            -1
        }
    }
}

pub open spec fn subcommand_field_value(sub: SubcommandInfo) -> Seq<char> {
    text_or(sub.description, plain_no_description()) + "\n"@ + param_lines(sub.parameters@, true)
}

/// `d` is the detail view of `cmd`: a title, the description, a field of
/// parameters, then one field per subcommand.
pub open spec fn describes(d: Detail, cmd: CommandInfo) -> bool {
    &&& d.title@ == "Help for "@ + cmd.name@
    &&& d.description@ == text_or(cmd.description, plain_no_description())
    &&& d.fields@.len() == cmd.subcommands@.len() + 1
    &&& d.fields@[0].name@ == "Parameters"@
    &&& d.fields@[0].value@ == param_lines(cmd.parameters@, false)
    &&& forall|i: int|
        0 <= i < cmd.subcommands@.len() ==> (#[trigger] d.fields@[i + 1]).name@ == cmd.subcommands@[i].name@
            && d.fields@[i + 1].value@ == subcommand_field_value(cmd.subcommands@[i])
}

fn plain_text_or_default(d: &Option<String>) -> (r: String)
    ensures
        r@ == text_or(*d, plain_no_description()),
{
    match d {
        Some(s) => s.clone(),
        None => String::from_str("No description available yet"),
    }
}

/// The parameters' lines of `params`, joined by newlines.
pub fn params_text(params: &Vec<ParamInfo>, emphasised: bool) -> (r: String)
    ensures
        r@ == param_lines(params@, emphasised),
{
    let mut s = String::new();
    let mut i: usize = 0;
    assert(params@.take(0) =~= Seq::<ParamInfo>::empty());
    while i < params.len()
        invariant
            i <= params.len(),
            s@ == param_lines(params@.take(i as int), emphasised),
        decreases params.len() - i,
    {
        let p = &params[i];
        let ghost before = s@;
        if i > 0 {
            s.append("\n");
        }
        let ghost mid = s@;
        if emphasised {
            s.append("*");
            s.append(p.name.as_str());
            s.append("*");
        } else {
            s.append(p.name.as_str());
        }
        s.append(" - ");
        let d = plain_text_or_default(&p.description);
        s.append(d.as_str());
        assert(s@ =~= mid + param_line(params@[i as int], emphasised));
        assert(params@.take(i + 1).drop_last() =~= params@.take(i as int));
        if i == 0 {
            assert(before =~= Seq::<char>::empty());
            assert(params@.take(1)[0] == params@[0]);
        }
        i = i + 1;
    }
    assert(params@.take(i as int) =~= params@);
    s
}

/// The detail view of the first command called `name`, if there is one.
pub fn command_detail(commands: &Vec<CommandInfo>, name: &str) -> (r: Option<Detail>)
    ensures
        find_command(commands@, name@) < 0 ==> r is None,
        find_command(commands@, name@) >= 0 ==> r is Some && describes(
            r->Some_0,
            commands@[find_command(commands@, name@)],
        ),
{
    let wanted = String::from_str(name);
    let mut i: usize = 0;
    while i < commands.len()
        invariant
            i <= commands.len(),
            wanted@ == name@,
            find_command(commands@.take(i as int), name@) < 0,
        decreases commands.len() - i,
    {
        assert(commands@.take(i + 1).drop_last() =~= commands@.take(i as int));
        if commands[i].name == wanted {
            proof {
                lemma_find_extends(commands@, name@, i as int + 1);
            }
            return Some(detail_of(&commands[i]));
        }
        i = i + 1;
    }
    assert(commands@.take(i as int) =~= commands@);
    None
}

proof fn lemma_find_extends(cmds: Seq<CommandInfo>, name: Seq<char>, k: int)
    requires
        0 <= k <= cmds.len(),
        find_command(cmds.take(k), name) >= 0,
    ensures
        find_command(cmds, name) == find_command(cmds.take(k), name),
    decreases cmds.len() - k,
{
    if k < cmds.len() {
        assert(cmds.take(k + 1).drop_last() =~= cmds.take(k));
        lemma_find_extends(cmds, name, k + 1);
    } else {
        assert(cmds.take(k) =~= cmds);
    }
}

/// The detail view of `cmd`.
pub fn detail_of(cmd: &CommandInfo) -> (d: Detail)
    ensures
        describes(d, *cmd),
{
    let mut title = String::from_str("Help for ");
    title.append(cmd.name.as_str());
    let mut fields: Vec<DetailField> = Vec::new();
    fields.push(DetailField {
        name: String::from_str("Parameters"),
        value: params_text(&cmd.parameters, false),
    });
    let subs = &cmd.subcommands;
    let mut i: usize = 0;
    while i < subs.len()
        invariant
            i <= subs.len(),
            subs == cmd.subcommands,
            fields@.len() == i + 1,
            fields@[0].name@ == "Parameters"@,
            fields@[0].value@ == param_lines(cmd.parameters@, false),
            forall|j: int|
                0 <= j < i ==> (#[trigger] fields@[j + 1]).name@ == subs@[j].name@
                    && fields@[j + 1].value@ == subcommand_field_value(subs@[j]),
        decreases subs.len() - i,
    {
        let sub = &subs[i];
        let mut value = plain_text_or_default(&sub.description);
        value.append("\n");
        let ps = params_text(&sub.parameters, true);
        value.append(ps.as_str());
        fields.push(DetailField { name: sub.name.clone(), value });
        i = i + 1;
    }
    Detail { title, description: plain_text_or_default(&cmd.description), fields }
}

} // verus!
