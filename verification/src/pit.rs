//! Point-in-time snapshots of files.
use vstd::prelude::*;
use vstd::string::*;

use crate::cpus::split_once;
use crate::repl::options::{parse_u64, value};
use crate::text::{
    decimal, join2, join3, join4, quoted, str_eq, to_lower, trim, trim_leading,
};

verus! {

/// How a snapshot is made.
#[derive(Clone, Copy, Debug, PartialEq, Eq, Structural)]
pub enum Mode {
    Reflink,
    Auto,
    Copy,
}

/// The way that a text asks for.
pub open spec fn mode_due(text: Seq<char>) -> Result<Mode, Seq<char>> {
    let word = crate::text::lower_text(crate::text::trim_text(text));
    if word == "reflink"@ || word == "cow"@ || word == "zero-copy"@ || word == "zerocopy"@ {
        Ok(Mode::Reflink)
    } else if word == "auto"@ {
        Ok(Mode::Auto)
    } else if word == "copy"@ || word == "full-copy"@ {
        Ok(Mode::Copy)
    } else {
        Err(
            "unsupported mode "@ + crate::text::debug_text(word)
                + "; expected reflink, auto, or copy"@,
        )
    }
}

/// The way that a text asks for.
pub fn normalize_mode(value: &str) -> (r: Result<Mode, String>)
    ensures
        crate::repl::options::agrees(r, mode_due(value@)),
{
    let trimmed: String = trim(value);
    let lowered: String = to_lower(trimmed.as_str());
    let word: &str = lowered.as_str();
    if str_eq(word, "reflink") || str_eq(word, "cow") || str_eq(word, "zero-copy") || str_eq(
        word,
        "zerocopy",
    ) {
        Ok(Mode::Reflink)
    } else if str_eq(word, "auto") {
        Ok(Mode::Auto)
    } else if str_eq(word, "copy") || str_eq(word, "full-copy") {
        Ok(Mode::Copy)
    } else {
        let shown: String = quoted(word);
        Err(
            join3("unsupported mode ", shown.as_str(), "; expected reflink, auto, or copy"),
        )
    }
}

/// The options that take a value.
#[derive(Clone, Copy, Debug, PartialEq, Eq, Structural)]
pub enum Field {
    Source,
    Snapshot,
    Bytes,
    Mode,
}

/// The option that a name stands for.
pub open spec fn field_named(name: Seq<char>) -> Option<Field> {
    if name == "--source"@ || name == "--input"@ {
        Some(Field::Source)
    } else if name == "--snapshot"@ || name == "--output"@ {
        Some(Field::Snapshot)
    } else if name == "--bytes"@ {
        Some(Field::Bytes)
    } else if name == "--mode"@ {
        Some(Field::Mode)
    } else {
        None
    }
}

fn field_of(name: &str) -> (f: Option<Field>)
    ensures
        f == field_named(name@),
{
    if str_eq(name, "--source") || str_eq(name, "--input") {
        Some(Field::Source)
    } else if str_eq(name, "--snapshot") || str_eq(name, "--output") {
        Some(Field::Snapshot)
    } else if str_eq(name, "--bytes") {
        Some(Field::Bytes)
    } else if str_eq(name, "--mode") {
        Some(Field::Mode)
    } else {
        None
    }
}

struct Draft {
    source: Option<String>,
    snapshot: Option<String>,
    bytes: Option<u64>,
    mode: Mode,
}

/// What the options read so far say.
pub struct DraftView {
    pub source: Option<Seq<char>>,
    pub snapshot: Option<Seq<char>>,
    pub bytes: Option<u64>,
    pub mode: Mode,
}

impl Draft {
    spec fn meant(&self) -> DraftView {
        DraftView {
            source: crate::args::said(self.source),
            snapshot: crate::args::said(self.snapshot),
            bytes: self.bytes,
            mode: self.mode,
        }
    }

    fn with(self, field: Field, text: String) -> (r: Result<Draft, String>)
        ensures
            match r {
                Ok(d) => with_field(self.meant(), field, text@) == Ok::<DraftView, Seq<char>>(
                    d.meant(),
                ),
                Err(e) => with_field(self.meant(), field, text@) == Err::<DraftView, Seq<char>>(e@),
            },
    {
        let mut d: Draft = self;
        match field {
            Field::Source => {
                d.source = Some(text);
            },
            Field::Snapshot => {
                d.snapshot = Some(text);
            },
            Field::Bytes => match parse_u64(text.as_str(), "--bytes") {
                Ok(n) => {
                    d.bytes = Some(n);
                },
                Err(e) => {
                    return Err(e);
                },
            },
            Field::Mode => match normalize_mode(text.as_str()) {
                Ok(m) => {
                    d.mode = m;
                },
                Err(e) => {
                    return Err(e);
                },
            },
        }
        Ok(d)
    }
}

/// Nothing said: a reflink of the whole file.
pub open spec fn nothing_said() -> DraftView {
    DraftView { source: None, snapshot: None, bytes: None, mode: Mode::Reflink }
}

/// `d` with one more option.
pub open spec fn with_field(d: DraftView, field: Field, text: Seq<char>) -> Result<
    DraftView,
    Seq<char>,
> {
    match field {
        Field::Source => Ok(DraftView { source: Some(text), ..d }),
        Field::Snapshot => Ok(DraftView { snapshot: Some(text), ..d }),
        Field::Bytes => match crate::repl::options::count_due(text, "--bytes"@) {
            Ok(n) => Ok(DraftView { bytes: Some(n), ..d }),
            Err(e) => Err(e),
        },
        Field::Mode => match mode_due(text) {
            Ok(mode) => Ok(DraftView { mode, ..d }),
            Err(e) => Err(e),
        },
    }
}

/// An option that is joined to its value by `=`; the name counts as often as it is repeated.
pub open spec fn joined(arg: Seq<char>) -> Option<(Field, Seq<char>)> {
    match crate::cpus::sides(arg, '=') {
        None => None,
        Some((name, _)) => match field_named(name) {
            None => None,
            Some(field) => Some((field, crate::text::without_leading(arg, name + "="@))),
        },
    }
}

fn split_joined(arg: &str) -> (r: Option<(Field, String)>)
    ensures
        match r {
            None => joined(arg@) is None,
            Some((field, text)) => joined(arg@) == Some((field, text@)),
        },
{
    match split_once(arg, '=') {
        None => None,
        Some((name, _)) => match field_of(name.as_str()) {
            None => None,
            Some(field) => {
                let head: String = join2(name.as_str(), "=");
                proof {
                    reveal_strlit("=");
                }
                Some((field, trim_leading(arg, head.as_str())))
            },
        },
    }
}

/// What a command line says in all.
pub open spec fn drafted(rest: Seq<Seq<char>>, d: DraftView) -> Result<DraftView, Seq<char>>
    decreases rest.len(),
{
    if rest.len() == 0 {
        Ok(d)
    } else {
        match field_named(rest[0]) {
            Some(field) => match crate::repl::options::value_due(
                crate::args::nth(rest, 1),
                rest[0],
            ) {
                Err(e) => Err(e),
                Ok(text) => match with_field(d, field, text) {
                    Err(e) => Err(e),
                    Ok(next) => drafted(crate::args::after(rest, 2), next),
                },
            },
            None => match joined(rest[0]) {
                None => Err("unknown argument "@ + rest[0] + "\n"@ + usage_text()),
                Some((field, text)) => match with_field(d, field, text) {
                    Err(e) => Err(e),
                    Ok(next) => drafted(crate::args::after(rest, 1), next),
                },
            },
        }
    }
}

/// A snapshot that is to be made.
#[derive(Debug)]
pub struct Args {
    pub source: String,
    pub snapshot: String,
    pub bytes: Option<u64>,
    pub mode: Mode,
}

/// What is meant by [`Args`].
pub struct ArgsView {
    pub source: Seq<char>,
    pub snapshot: Seq<char>,
    pub bytes: Option<u64>,
    pub mode: Mode,
}

impl View for Args {
    type V = ArgsView;

    open spec fn view(&self) -> ArgsView {
        ArgsView {
            source: self.source@,
            snapshot: self.snapshot@,
            bytes: self.bytes,
            mode: self.mode,
        }
    }
}

/// What a command line asks for. The word `snapshot` may stand first.
pub open spec fn args_due(args: Seq<Seq<char>>) -> Result<ArgsView, Seq<char>> {
    let rest = if args.len() > 0 && args[0] == "snapshot"@ {
        args.skip(1)
    } else {
        args
    };
    match drafted(rest, nothing_said()) {
        Err(e) => Err(e),
        Ok(d) => match d.source {
            None => Err("--source is required\n"@ + usage_text()),
            Some(source) => match d.snapshot {
                None => Err("--snapshot is required\n"@ + usage_text()),
                Some(snapshot) => Ok(
                    ArgsView { source, snapshot, bytes: d.bytes, mode: d.mode },
                ),
            },
        },
    }
}

/// What a command line asks for.
pub fn parse_args(args: &Vec<String>) -> (r: Result<Args, String>)
    ensures
        match r {
            Ok(a) => args_due(crate::text::texts(args@)) == Ok::<ArgsView, Seq<char>>(a@),
            Err(e) => args_due(crate::text::texts(args@)) == Err::<ArgsView, Seq<char>>(e@),
        },
{
    let ghost views = crate::text::texts(args@);
    let count: usize = args.len();
    let mut draft: Draft = Draft { source: None, snapshot: None, bytes: None, mode: Mode::Reflink };
    let mut i: usize = if count > 0 && str_eq(args[0].as_str(), "snapshot") {
        1
    } else {
        0
    };
    proof {
        if count > 0 {
            assert(views[0] == args@[0]@);
        }
        assert(views.skip(0) =~= views);
    }
    let ghost goal = drafted(views.skip(i as int), nothing_said());
    while i < count
        invariant
            i <= count,
            count == args@.len(),
            views == crate::text::texts(args@),
            goal == drafted(views.skip(i as int), draft.meant()),
            args_due(views) == match goal {
                Err(e) => Err::<ArgsView, Seq<char>>(e),
                Ok(d) => match d.source {
                    None => Err("--source is required\n"@ + usage_text()),
                    Some(source) => match d.snapshot {
                        None => Err("--snapshot is required\n"@ + usage_text()),
                        Some(snapshot) => Ok(
                            ArgsView { source, snapshot, bytes: d.bytes, mode: d.mode },
                        ),
                    },
                },
            },
        decreases count - i,
    {
        let ghost rest = views.skip(i as int);
        let arg: &str = args[i].as_str();
        proof {
            assert(rest[0] == arg@);
            assert(crate::args::nth(rest, 1) == crate::args::nth(views, i + 1));
            assert(crate::args::after(rest, 1) =~= views.skip(i + 1));
        }
        match field_of(arg) {
            Some(field) => {
                let text: String = match value(args.as_slice(), i + 1, arg) {
                    Ok(text) => text,
                    Err(e) => {
                        return Err(e);
                    },
                };
                draft = match draft.with(field, text) {
                    Ok(d) => d,
                    Err(e) => {
                        return Err(e);
                    },
                };
                proof {
                    assert(crate::args::after(rest, 2) =~= views.skip(i + 2));
                }
                i = i + 2;
            },
            None => match split_joined(arg) {
                None => {
                    return Err(join4("unknown argument ", arg, "\n", usage()));
                },
                Some((field, text)) => {
                    draft = match draft.with(field, text) {
                        Ok(d) => d,
                        Err(e) => {
                            return Err(e);
                        },
                    };
                    i = i + 1;
                },
            },
        }
    }
    proof {
        assert(views.skip(i as int).len() == 0);
    }
    let source: String = match draft.source {
        Some(path) => path,
        None => {
            return Err(join2("--source is required\n", usage()));
        },
    };
    match draft.snapshot {
        Some(snapshot) => Ok(Args { source, snapshot, bytes: draft.bytes, mode: draft.mode }),
        None => Err(join2("--snapshot is required\n", usage())),
    }
}

/// How the tool is called.
pub open spec fn usage_text() -> Seq<char> {
    "usage: zcpit snapshot --source PATH --snapshot PATH [--bytes N] [--mode reflink|auto|copy]"@
}

/// How the tool is called.
pub fn usage() -> (text: &'static str)
    ensures
        text@ == usage_text(),
{
    "usage: zcpit snapshot --source PATH --snapshot PATH [--bytes N] [--mode reflink|auto|copy]"
}

/// What came of a try to share the blocks of a file.
#[derive(Debug)]
pub enum Reflink {
    Made,
    Unsupported { complaint: String },
    Failed { complaint: String },
}

/// Whether a try to share the blocks of a file is made first.
pub fn tries_reflink(mode: Mode) -> (yes: bool)
    ensures
        yes == (mode != Mode::Copy),
{
    match mode {
        Mode::Copy => false,
        _ => true,
    }
}

/// Whether the file is to be copied after such a try; only where any way will do, and only because
/// blocks cannot be shared there.
pub fn copies_instead(mode: Mode, tried: &Reflink) -> (r: Result<bool, String>)
    ensures
        match (tried, r) {
            (Reflink::Made, Ok(copy)) => !copy,
            (Reflink::Unsupported { .. }, Ok(copy)) => mode == Mode::Auto && copy,
            (Reflink::Unsupported { complaint }, Err(e)) => mode != Mode::Auto && e@
                == "reflink PIT snapshot failed: "@ + complaint@,
            (Reflink::Failed { complaint }, Err(e)) => e@ == "reflink PIT snapshot failed: "@
                + complaint@,
            _ => false,
        },
{
    match tried {
        Reflink::Made => Ok(false),
        Reflink::Unsupported { complaint } => match mode {
            Mode::Auto => Ok(true),
            _ => Err(join2("reflink PIT snapshot failed: ", complaint.as_str())),
        },
        Reflink::Failed { complaint } => Err(
            join2("reflink PIT snapshot failed: ", complaint.as_str()),
        ),
    }
}

/// Checks how much of a file was copied.
pub fn copy_snapshot(copied: u64, bytes: Option<u64>) -> (r: Result<(), String>)
    ensures
        match r {
            Ok(_) => bytes is None || bytes == Some(copied),
            Err(e) => bytes is Some && bytes != Some(copied) && e@ == "source ended after "@
                + crate::text::decimal_text(copied as nat) + " bytes before requested "@
                + crate::text::decimal_text(bytes->0 as nat) + " bytes"@,
        },
{
    match bytes {
        None => Ok(()),
        Some(n) => if n == copied {
            Ok(())
        } else {
            let got: String = decimal(copied);
            let due: String = decimal(n);
            let head: String = join4(
                "source ended after ",
                got.as_str(),
                " bytes before requested ",
                due.as_str(),
            );
            Err(join2(head.as_str(), " bytes"))
        },
    }
}

/// An option sets its own field and leaves every other one as it was.
pub proof fn law_an_option_sets_its_own_field(
    d: DraftView,
    field: Field,
    text: Seq<char>,
    after: DraftView,
)
    requires
        with_field(d, field, text) == Ok::<DraftView, Seq<char>>(after),
    ensures
        after.source == if field == Field::Source {
            Some(text)
        } else {
            d.source
        },
        after.snapshot == if field == Field::Snapshot {
            Some(text)
        } else {
            d.snapshot
        },
        field != Field::Bytes ==> after.bytes == d.bytes,
        field == Field::Bytes ==> after.bytes is Some && after.bytes->0 > 0
            && crate::text::unsigned_value(text, u64::MAX as nat) == Some(after.bytes->0 as nat),
        field != Field::Mode ==> after.mode == d.mode,
{
}

/// Options are taken one after the other, and a snapshot is made only of a source that was named, into a
/// place that was named.
pub proof fn law_options_are_taken_in_order(
    name: Seq<char>,
    text: Seq<char>,
    rest: Seq<Seq<char>>,
    d: DraftView,
)
    requires
        field_named(name) is Some,
    ensures
        with_field(d, field_named(name)->0, text) is Ok ==> drafted(seq![name, text] + rest, d)
            == drafted(rest, with_field(d, field_named(name)->0, text)->Ok_0),
        with_field(d, field_named(name)->0, text) is Err ==> drafted(seq![name, text] + rest, d)
            is Err,
{
    let two = seq![name, text] + rest;
    assert(two[0] == name && two[1] == text);
    assert(two.skip(2) =~= rest);
}

} // verus!
