//! The commands of the program and their flags.

use vstd::prelude::*;

use crate::model::{views, Dup};
use crate::text::{
    chars_of, concat2, join, joined, split_at_char, split_char, strip_suffix, without_suffix,
};

verus! {

broadcast use crate::model::group_views;

/// The program's name.
pub const PROGRAM: &'static str = "graphlite";

/// The commands, one to a line: name, summary and flags. A flag that takes a value ends in `=`.
pub const COMMANDS: &'static str = "\
init|Initialize graphlite config and index|\n\
discover|Index symbols and edges into codegraph.db|\n\
symbols|Search symbols by FTS query|language=,file=,context=,crate-name=,exclude-tests,md\n\
deps|Show workspace crate dependency graph|md,modules\n\
resolve|Resolve ambiguous symbol selectors to deterministic top candidates|language=,prefer-role=,prefer-file=,md\n\
trace-path|Trace function-hop paths between entrypoints and completion boundaries|to=,direction=,max-depth=,max-paths=,with-async-boundaries,with-channels,high-level\n\
graph|Graph neighborhood for one or more symbols|depth=,format=,show-trust,no-snippets,max-snippet-lines=,budget-lines=,budget-tokens=,offset=,compact\n\
blast-radius|Caller impact for one or more symbols|depth=,no-snippets,max-snippet-lines=,budget-lines=,budget-tokens=,offset=,compact\n\
context|Combined graph + blast-radius view for one or more symbols|depth=,blast-depth=,max-depth=,no-snippets,edit,max-snippet-lines=,budget-lines=,budget-tokens=,offset=,compact\n\
watch|Watch source files and re-index on change|\n\
reclassify|Re-run role classification over the current graph|\n\
violations|Context and workspace layer policy checks|from-context=,to-context=,context=,top=,pattern=,by-crate,edge=,no-snippets,strict-policy,check,audit\n\
check|Run cargo clippy diagnostics and store node quality signals|\n\
audit|Run cargo-audit advisories and store crate risk signals|\n\
map|High-level symbol map and hotspots|all,top=,with-docs,with-file-docs,all-edges,role=,context=,by-file,md\n\
annotate|Add or update a semantic annotation on a symbol|intent=,behavior=,tags=,source=,confidence=\n\
annotations|List annotations|stale\n\
rename|Semantic rename via rust-analyzer; requires graphlite watch to be running|root=\n\
diff-rename|Preview edits.json as a human-readable diff (accepts optional [EDITS_FILE] arg)|\n\
apply-edits|Apply edits.json to disk atomically (accepts optional [EDITS_FILE] arg)|\n\
capabilities|Show supported command and flag surface|json\n\
policy|Manage built-in architecture policy packs (subcommands: init-pack, lint)|\n\
policy init-pack|Initialize a built-in policy pack in .graphlite/config.toml|root=,force\n\
policy lint|Lint policy rules for stale/broad suppressions; supports CI gate flags|root=,stale,fail-on-stale,fail-on-broad,broad-threshold=";

/// A flag of a command.
#[derive(Debug)]
pub struct FlagCap {
    pub name: String,
    pub takes_value: bool,
}

/// What a [`FlagCap`] holds.
#[verifier::ext_equal]
pub struct FlagCapView {
    pub name: Seq<char>,
    pub takes_value: bool,
}

impl DeepView for FlagCap {
    type V = FlagCapView;

    open spec fn deep_view(&self) -> FlagCapView {
        FlagCapView {
            name: self.name.deep_view(),
            takes_value: self.takes_value.deep_view(),
        }
    }
}

impl View for FlagCap {
    type V = FlagCapView;

    open spec fn view(&self) -> FlagCapView {
        self.deep_view()
    }
}

impl Dup for FlagCap {
    fn dup(&self) -> (r: FlagCap) {
        FlagCap {
            name: self.name.dup(),
            takes_value: self.takes_value.dup(),
        }
    }
}

/// A command: its name, what it does, and its flags.
#[derive(Debug)]
pub struct CommandCap {
    pub name: String,
    pub summary: String,
    pub flags: Vec<FlagCap>,
}

/// What a [`CommandCap`] holds.
#[verifier::ext_equal]
pub struct CommandCapView {
    pub name: Seq<char>,
    pub summary: Seq<char>,
    pub flags: Seq<FlagCapView>,
}

impl DeepView for CommandCap {
    type V = CommandCapView;

    open spec fn deep_view(&self) -> CommandCapView {
        CommandCapView {
            name: self.name.deep_view(),
            summary: self.summary.deep_view(),
            flags: views(self.flags@),
        }
    }
}

impl View for CommandCap {
    type V = CommandCapView;

    open spec fn view(&self) -> CommandCapView {
        self.deep_view()
    }
}

/// The flag that an entry of the table writes.
pub open spec fn flag_in(entry: Seq<char>) -> FlagCapView {
    match without_suffix(entry, "="@) {
        Some(name) => FlagCapView { name, takes_value: true },
        None => FlagCapView { name: entry, takes_value: false },
    }
}

/// The flags that the first `n` entries write; an empty one writes none.
pub open spec fn flags_in(entries: Seq<Seq<char>>, n: int) -> Seq<FlagCapView>
    decreases n,
{
    if n <= 0 {
        Seq::empty()
    } else if entries[n - 1].len() == 0 {
        flags_in(entries, n - 1)
    } else {
        flags_in(entries, n - 1).push(flag_in(entries[n - 1]))
    }
}

/// The command that a line of the table writes; none where it has not three parts.
pub open spec fn command_in(line: Seq<char>) -> Option<CommandCapView> {
    let parts = split_at_char(line, '|');
    if parts.len() == 3 {
        let entries = split_at_char(parts[2], ',');
        Some(
            CommandCapView {
                name: parts[0],
                summary: parts[1],
                flags: flags_in(entries, entries.len() as int),
            },
        )
    } else {
        None
    }
}

/// The commands that the first `n` lines write.
pub open spec fn commands_in(all: Seq<Seq<char>>, n: int) -> Seq<CommandCapView>
    decreases n,
{
    if n <= 0 {
        Seq::empty()
    } else {
        match command_in(all[n - 1]) {
            Some(c) => commands_in(all, n - 1).push(c),
            None => commands_in(all, n - 1),
        }
    }
}

/// The commands that a table writes.
pub open spec fn table_commands(table: Seq<char>) -> Seq<CommandCapView> {
    let all = split_at_char(table, '\n');
    commands_in(all, all.len() as int)
}

/// The flag that an entry of the table writes.
pub fn flag(entry: &str) -> (r: FlagCap)
    ensures
        r@ == flag_in(entry@),
{
    match strip_suffix(entry, "=") {
        Some(name) => FlagCap { name, takes_value: true },
        None => FlagCap { name: entry.to_owned(), takes_value: false },
    }
}

/// The command that a line of the table writes.
pub fn cmd(line: &str) -> (r: Option<CommandCap>)
    ensures
        r.deep_view() == command_in(line@),
{
    let parts = split_char(line, '|');
    assert(views(parts@).len() == parts@.len());
    if parts.len() != 3 {
        return None;
    }
    assert(views(parts@)[0] == parts@[0]@);
    assert(views(parts@)[1] == parts@[1]@);
    assert(views(parts@)[2] == parts@[2]@);
    let entries = split_char(&parts[2], ',');
    let ghost ev = views(entries@);
    let mut flags: Vec<FlagCap> = Vec::new();
    let mut n: usize = 0;
    while n < entries.len()
        invariant
            ev == views(entries@),
            n <= entries@.len(),
            views(flags@) == flags_in(ev, n as int),
        decreases entries@.len() - n,
    {
        assert(ev[n as int] == entries@[n as int]@);
        if !entries[n].as_str().is_empty() {
            flags.push(flag(&entries[n]));
        }
        n = n + 1;
    }
    Some(CommandCap { name: parts[0].dup(), summary: parts[1].dup(), flags })
}

/// The commands that a table writes.
pub fn read_table(table: &str) -> (r: Vec<CommandCap>)
    ensures
        views(r@) == table_commands(table@),
{
    let all = split_char(table, '\n');
    let ghost av = views(all@);
    let mut out: Vec<CommandCap> = Vec::new();
    let mut n: usize = 0;
    while n < all.len()
        invariant
            av == views(all@),
            n <= all@.len(),
            views(out@) == commands_in(av, n as int),
        decreases all@.len() - n,
    {
        assert(av[n as int] == all@[n as int]@);
        if let Some(c) = cmd(&all[n]) {
            out.push(c);
        }
        n = n + 1;
    }
    out
}

/// The commands of the program.
pub fn surface() -> (r: Vec<CommandCap>)
    ensures
        views(r@) == table_commands(COMMANDS@),
{
    read_table(COMMANDS)
}

/// `n` spaces.
pub open spec fn spaces(n: int) -> Seq<char> {
    Seq::new(
        if n < 0 {
            0
        } else {
            n as nat
        },
        |i: int| ' ',
    )
}

/// A text with spaces behind it, at least `width` characters wide.
pub open spec fn padded(s: Seq<char>, width: int) -> Seq<char> {
    s + spaces(width - s.len())
}

/// A text with spaces behind it, at least `width` characters wide.
pub fn pad(s: &str, width: usize) -> (r: String)
    ensures
        r@ == padded(s@, width as int),
{
    let v = chars_of(s);
    let mut out = s.to_owned();
    let mut n: usize = v.len();
    assert(out@ =~= s@ + spaces(0));
    while n < width
        invariant
            v@ == s@,
            n >= s@.len(),
            n > s@.len() ==> n <= width,
            out@ == s@ + spaces(n - s@.len()),
        decreases width - n,
    {
        out.push(' ');
        n = n + 1;
        assert(out@ =~= s@ + spaces(n - s@.len()));
    }
    assert(s@ + spaces(n - s@.len()) =~= padded(s@, width as int));
    out
}

/// A flag as it is written.
pub open spec fn flag_usage(f: FlagCapView) -> Seq<char> {
    if f.takes_value {
        "--"@ + f.name + " <value>"@
    } else {
        "--"@ + f.name
    }
}

/// The first `n` flags as they are written.
pub open spec fn usages(flags: Seq<FlagCapView>, n: int) -> Seq<Seq<char>>
    decreases n,
{
    if n <= 0 {
        Seq::empty()
    } else {
        usages(flags, n - 1).push(flag_usage(flags[n - 1]))
    }
}

/// The flags of a command as a text.
pub open spec fn flags_text(flags: Seq<FlagCapView>) -> Seq<char> {
    if flags.len() == 0 {
        "-"@
    } else {
        joined(usages(flags, flags.len() as int), ", "@)
    }
}

/// The listing with the first `n` commands.
pub open spec fn listing(commands: Seq<CommandCapView>, version: Seq<char>, n: int) -> Seq<char>
    decreases n,
{
    if n <= 0 {
        "graphlite "@ + version + " capabilities\n"@ + "commands:\n"@
    } else {
        let c = commands[n - 1];
        listing(commands, version, n - 1) + "  "@ + padded(c.name, 14) + " "@ + c.summary + "\n"@
            + "  "@ + padded("flags:"@, 14) + " "@ + flags_text(c.flags) + "\n"@
    }
}

fn show_flags(flags: &Vec<FlagCap>) -> (r: String)
    ensures
        r@ == flags_text(views(flags@)),
{
    if flags.len() == 0 {
        return "-".to_owned();
    }
    let mut out: Vec<String> = Vec::new();
    let mut n: usize = 0;
    while n < flags.len()
        invariant
            n <= flags@.len(),
            views(out@) == usages(views(flags@), n as int),
        decreases flags@.len() - n,
    {
        let f = &flags[n];
        assert(views(flags@)[n as int] == f@);
        let mut usage = concat2("--", &f.name);
        if f.takes_value {
            usage.append(" <value>");
        }
        out.push(usage);
        n = n + 1;
    }
    join(&out, ", ")
}

/// The commands and their flags as a listing.
pub fn run(commands: &Vec<CommandCap>, version: &str) -> (r: String)
    ensures
        r@ == listing(views(commands@), version@, commands@.len() as int),
{
    let mut out = concat2("graphlite ", version);
    out.append(" capabilities\n");
    out.append("commands:\n");
    let mut n: usize = 0;
    while n < commands.len()
        invariant
            n <= commands@.len(),
            out@ == listing(views(commands@), version@, n as int),
        decreases commands@.len() - n,
    {
        let c = &commands[n];
        assert(views(commands@)[n as int] == c@);
        out.append("  ");
        out.append(&pad(&c.name, 14));
        out.append(" ");
        out.append(&c.summary);
        out.append("\n");
        out.append("  ");
        out.append(&pad("flags:", 14));
        out.append(" ");
        out.append(&show_flags(&c.flags));
        out.append("\n");
        n = n + 1;
    }
    out
}

// ---------------------------------------------------------------------------
// Laws
// ---------------------------------------------------------------------------

/// A flag whose entry ends in a sign of equality takes a value; the sign is not part of its
/// name.
pub proof fn marked_flags_take_values(name: Seq<char>, entry: Seq<char>)
    ensures
        flag_in(name + "="@) == (FlagCapView { name, takes_value: true }),
        entry.len() == 0 || entry.last() != '=' ==> flag_in(entry) == (FlagCapView {
            name: entry,
            takes_value: false,
        }),
{
    reveal_strlit("=");
    let marked = name + "="@;
    assert(marked.take(name.len() as int) =~= name);
    assert(marked.subrange(0, name.len() as int) =~= name);
    assert(marked.skip(name.len() as int) =~= "="@);
    assert(marked.subrange(name.len() as int, marked.len() as int) =~= "="@);
    if entry.len() > 0 {
        assert(entry.skip(entry.len() - 1).len() == 1);
        assert(entry.skip(entry.len() - 1)[0] == entry.last());
        assert(entry.subrange(entry.len() - 1, entry.len() as int)[0] == entry.last());
    }
}

/// Every entry that is not empty is a flag, in order.
pub proof fn entries_are_flags(entries: Seq<Seq<char>>, n: int)
    requires
        0 <= n <= entries.len(),
    ensures
        flags_in(entries, n) == entries.take(n).filter(|e: Seq<char>| e.len() > 0).map_values(
            |e: Seq<char>| flag_in(e),
        ),
    decreases n,
{
    reveal(Seq::filter);
    let some = |e: Seq<char>| e.len() > 0;
    let read = |e: Seq<char>| flag_in(e);
    if n > 0 {
        entries_are_flags(entries, n - 1);
        assert(entries.take(n).drop_last() =~= entries.take(n - 1));
        assert(entries.take(n).last() == entries[n - 1]);
        let before = entries.take(n - 1).filter(some);
        assert(before.push(entries[n - 1]).map_values(read) =~= before.map_values(read).push(
            flag_in(entries[n - 1]),
        ));
    } else {
        assert(flags_in(entries, n) =~= entries.take(n).filter(some).map_values(read));
    }
}

/// A line of three parts is a command: its name, what it does, and its flags, which commas
/// part. Other lines are none.
pub proof fn lines_of_three_parts_are_commands(line: Seq<char>)
    ensures
        split_at_char(line, '|').len() != 3 ==> command_in(line) is None,
        split_at_char(line, '|').len() == 3 ==> (command_in(line) matches Some(c) && c.name
            == split_at_char(line, '|')[0] && c.summary == split_at_char(line, '|')[1] && c.flags
            == flags_in(
            split_at_char(split_at_char(line, '|')[2], ','),
            split_at_char(split_at_char(line, '|')[2], ',').len() as int,
        )),
{
}

/// The commands are those of the lines that are commands, in order.
pub proof fn commands_are_those_of_the_lines(all: Seq<Seq<char>>, n: int)
    requires
        0 <= n <= all.len(),
    ensures
        commands_in(all, n) == all.take(n).filter(
            |l: Seq<char>| split_at_char(l, '|').len() == 3,
        ).map_values(|l: Seq<char>| command_in(l)->0),
    decreases n,
{
    reveal(Seq::filter);
    let good = |l: Seq<char>| split_at_char(l, '|').len() == 3;
    let read = |l: Seq<char>| command_in(l)->0;
    if n > 0 {
        commands_are_those_of_the_lines(all, n - 1);
        assert(all.take(n).drop_last() =~= all.take(n - 1));
        assert(all.take(n).last() == all[n - 1]);
        let before = all.take(n - 1).filter(good);
        assert(before.push(all[n - 1]).map_values(read) =~= before.map_values(read).push(
            read(all[n - 1]),
        ));
    } else {
        assert(commands_in(all, n) =~= all.take(n).filter(good).map_values(read));
    }
}

/// A text is filled up with spaces to the width, and one as wide or wider stays as it is.
pub proof fn texts_are_filled_up(s: Seq<char>, width: int)
    ensures
        s.len() >= width ==> padded(s, width) == s,
        s.len() < width ==> padded(s, width).len() == width && padded(s, width).take(s.len() as int)
            == s && forall|i: int| s.len() <= i < width ==> #[trigger] padded(s, width)[i] == ' ',
{
    if s.len() >= width {
        assert(padded(s, width) =~= s);
    } else {
        assert(padded(s, width).take(s.len() as int) =~= s);
    }
}

/// Each flag is shown behind two dashes, with a place for its value where it takes one.
pub proof fn flags_are_shown(flags: Seq<FlagCapView>, n: int)
    requires
        0 <= n <= flags.len(),
    ensures
        usages(flags, n).len() == n,
        forall|i: int|
            0 <= i < n ==> #[trigger] usages(flags, n)[i] == if flags[i].takes_value {
                "--"@ + flags[i].name + " <value>"@
            } else {
                "--"@ + flags[i].name
            },
    decreases n,
{
    if n > 0 {
        flags_are_shown(flags, n - 1);
    }
}

/// A command without flags is shown with a dash, one with flags with all of them.
pub proof fn lists_of_flags_are_shown(flags: Seq<FlagCapView>)
    ensures
        flags.len() == 0 ==> flags_text(flags) == "-"@,
        flags.len() > 0 ==> flags_text(flags) == joined(usages(flags, flags.len() as int), ", "@),
{
}

} // verus!
