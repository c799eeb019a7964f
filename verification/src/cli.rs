//! The command line: its arguments, their parsing, and the output targets of a run.

use vstd::prelude::*;
use crate::config::Config;
use crate::render::{DiagramKind, OutputFormat, spells};
use crate::text::{chars_of, copy_string, push_str, same_text, to_owned_string};

verus! {

/// Arguments of the `run` command.
#[derive(Debug, PartialEq)]
pub struct RunArgs {
    /// Config file path.
    pub config_path: Option<String>,
    /// Directory to scan recursively for source files.
    pub path: String,
    /// Output format.
    pub format: OutputFormat,
    /// Markdown file to inject the diagram into, if any.
    pub output: Option<String>,
    /// Diagram type to generate.
    pub diagram: DiagramKind,
    /// Maximum graph depth (unlimited if None).
    pub depth: Option<usize>,
}

/// One output of a configured run: a file and the diagram it receives.
#[derive(Debug, PartialEq)]
pub struct OutputTarget {
    pub file: String,
    pub diagram_type: String,
}

/// The outputs of a configured run.
#[derive(Debug, PartialEq)]
pub struct CodevizConfig {
    pub outputs: Vec<OutputTarget>,
}

impl Default for RunArgs {
    fn default() -> (r: Self)
        ensures
            r.config_path is None,
            r.path@ == "."@,
            r.format == OutputFormat::Mermaid,
            r.output is None,
            r.diagram == DiagramKind::ModuleGraph,
            r.depth is None,
    {
        RunArgs {
            config_path: None,
            path: to_owned_string("."),
            format: OutputFormat::Mermaid,
            output: None,
            diagram: DiagramKind::ModuleGraph,
            depth: None,
        }
    }
}

/// The diagram kind that a name selects.
pub open spec fn diagram_of(s: Seq<char>) -> Option<DiagramKind> {
    if s == "module"@ {
        Some(DiagramKind::ModuleGraph)
    } else if s == "call"@ {
        Some(DiagramKind::CallGraph)
    } else if s == "class"@ {
        Some(DiagramKind::ClassDiagram)
    } else {
        None
    }
}

/// Parses a diagram kind from its name: "module", "call" or "class".
pub fn parse_diagram_kind(s: &str) -> (r: Result<DiagramKind, String>)
    ensures
        match diagram_of(s@) {
            Some(k) => r == Ok::<DiagramKind, String>(k),
            None => r matches Err(m) && m@ == "Invalid diagram kind: "@ + s@,
        },
{
    let t = to_owned_string(s);
    if same_text(&t, &to_owned_string("module")) {
        Ok(DiagramKind::ModuleGraph)
    } else if same_text(&t, &to_owned_string("call")) {
        Ok(DiagramKind::CallGraph)
    } else if same_text(&t, &to_owned_string("class")) {
        Ok(DiagramKind::ClassDiagram)
    } else {
        let mut m = to_owned_string("Invalid diagram kind: ");
        push_str(&mut m, s);
        Err(m)
    }
}

/// The value of a decimal digit.
pub open spec fn digit_value(c: char) -> int {
    c as int - '0' as int
}

/// Whether every character is a decimal digit.
pub open spec fn all_digits(s: Seq<char>) -> bool {
    forall|i: int| 0 <= i < s.len() ==> '0' <= #[trigger] s[i] <= '9'
}

/// The number that decimal digits spell.
pub open spec fn digits_value(s: Seq<char>) -> nat
    decreases s.len(),
{
    if s.len() == 0 { 0 } else { (digits_value(s.drop_last()) * 10 + digit_value(s.last())) as nat }
}

/// The `usize` that a text spells, as `str::parse::<usize>` reads it: an optional '+',
/// then one digit at least, for a value that fits.
pub open spec fn usize_of(s: Seq<char>) -> Option<usize> {
    let body = if s.len() > 0 && s[0] == '+' { s.skip(1) } else { s };
    if body.len() > 0 && all_digits(body) && digits_value(body) <= usize::MAX {
        Some(digits_value(body) as usize)
    } else {
        None
    }
}

/// Parses a `usize` as `str::parse::<usize>` does.
pub fn parse_usize(s: &String) -> (r: Option<usize>)
    ensures
        r == usize_of(s@),
{
    let v = chars_of(s.as_str());
    let start: usize = if v.len() > 0 && v[0] == '+' { 1 } else { 0 };
    let ghost body = if v@.len() > 0 && v@[0] == '+' { v@.skip(1) } else { v@ };
    assert(body =~= v@.skip(start as int));
    if start >= v.len() {
        return None;
    }
    let mut value: usize = 0;
    let mut i: usize = start;
    while i < v.len()
        invariant
            v@ == s@,
            body == (if s@.len() > 0 && s@[0] == '+' { s@.skip(1) } else { s@ }),
            start <= i <= v@.len(),
            start < v@.len(),
            body == v@.skip(start as int),
            all_digits(v@.subrange(start as int, i as int)),
            value == digits_value(v@.subrange(start as int, i as int)),
        decreases v@.len() - i,
    {
        let c = v[i];
        let ghost pre = v@.subrange(start as int, i as int);
        assert(v@.subrange(start as int, i + 1) =~= pre.push(c));
        if !('0' <= c && c <= '9') {
            assert(!all_digits(body)) by {
                assert(body[i - start] == c);
                assert(!('0' <= body[i - start] <= '9'));
            }
            return None;
        }
        let d = (c as u32 - '0' as u32) as usize;
        assert(d == digit_value(c));
        if value > (usize::MAX - d) / 10 {
            proof {
                assert(pre.push(c).drop_last() =~= pre);
                assert(digits_value(pre.push(c)) == value * 10 + d);
                assert(value * 10 + d > usize::MAX) by (nonlinear_arith)
                    requires value > (usize::MAX - d) / 10, d <= 9;
                if all_digits(body) {
                    lemma_digits_prefix_bound(body, (i + 1 - start) as int);
                    assert(body.take((i + 1 - start) as int) =~= pre.push(c));
                }
            }
            return None;
        }
        assert(value * 10 + d <= usize::MAX) by (nonlinear_arith)
            requires value <= (usize::MAX - d) / 10, d <= 9;
        assert(pre.push(c).drop_last() =~= pre);
        assert(digits_value(pre.push(c)) == value * 10 + d);
        value = value * 10 + d;
        i = i + 1;
    }
    assert(v@.subrange(start as int, v@.len() as int) =~= body);
    Some(value)
}

/// A number spelled by digits is at least what any prefix of them spells.
proof fn lemma_digits_prefix_bound(s: Seq<char>, k: int)
    requires
        0 <= k <= s.len(),
        all_digits(s),
    ensures
        digits_value(s.take(k)) <= digits_value(s),
    decreases s.len() - k,
{
    if k < s.len() {
        lemma_digits_prefix_bound(s, k + 1);
        assert(s.take(k + 1).drop_last() =~= s.take(k));
        assert('0' <= s[k] <= '9');
        assert(digits_value(s.take(k + 1)) == digits_value(s.take(k)) * 10 + digit_value(s[k]));
        assert(digits_value(s.take(k)) <= digits_value(s.take(k)) * 10 + digit_value(s[k])) by (nonlinear_arith)
            requires digit_value(s[k]) >= 0;
    } else {
        assert(s.take(k) =~= s);
    }
}


/// What the arguments of a run hold, as plain values.
pub struct RunArgsV {
    pub config_path: Option<Seq<char>>,
    pub path: Seq<char>,
    pub format: OutputFormat,
    pub output: Option<Seq<char>>,
    pub diagram: DiagramKind,
    pub depth: Option<usize>,
}

/// The plain value of an optional text.
pub open spec fn opt_seq(o: Option<String>) -> Option<Seq<char>> {
    match o { Some(s) => Some(s@), None => None }
}

impl View for RunArgs {
    type V = RunArgsV;

    open spec fn view(&self) -> RunArgsV {
        RunArgsV {
            config_path: opt_seq(self.config_path),
            path: self.path@,
            format: self.format,
            output: opt_seq(self.output),
            diagram: self.diagram,
            depth: self.depth,
        }
    }
}

/// Where `--config` points, looking from position `i` on: the argument after its first
/// occurrence; an error where it comes last.
pub open spec fn config_arg(args: Seq<Seq<char>>, i: nat) -> Result<Option<Seq<char>>, Seq<char>>
    decreases args.len() - i,
{
    if i >= args.len() {
        Ok(None)
    } else if args[i as int] == "--config"@ {
        if i + 1 < args.len() { Ok(Some(args[i + 1int])) } else { Err("Missing argument for --config"@) }
    } else {
        config_arg(args, i + 1)
    }
}

/// The arguments of a run before the command line overrides them: those of the
/// configuration.
pub open spec fn initial_args(config_path: Option<Seq<char>>, targets: Seq<Seq<char>>, diagram_type: Seq<char>, max_depth: usize) -> RunArgsV {
    RunArgsV {
        config_path,
        path: "."@,
        format: OutputFormat::Mermaid,
        output: Some(if targets.len() > 0 { targets[0] } else { "README.md"@ }),
        diagram: match diagram_of(diagram_type) { Some(k) => k, None => DiagramKind::ModuleGraph },
        depth: if max_depth == 0 { None } else { Some(max_depth) },
    }
}

/// The format that an `--output` value names, where it names one.
pub open spec fn format_of(s: Seq<char>) -> Option<OutputFormat> {
    if spells(s, "mermaid"@) {
        Some(OutputFormat::Mermaid)
    } else if spells(s, "json"@) {
        Some(OutputFormat::Json)
    } else if spells(s, "dot"@) {
        Some(OutputFormat::Dot)
    } else {
        None
    }
}

/// Reads the command line from position `i` on, over the arguments gathered so far.
pub open spec fn read_args(args: Seq<Seq<char>>, i: nat, st: RunArgsV) -> Result<RunArgsV, Seq<char>>
    decreases args.len() + 2 - i,
{
    if i >= args.len() {
        Ok(st)
    } else {
        let a = args[i as int];
        let has_value = i + 1 < args.len();
        let val = args[i + 1int];
        if a == "--path"@ {
            if has_value { read_args(args, i + 2, RunArgsV { path: val, ..st }) } else { Err("Missing argument for --path"@) }
        } else if a == "--config"@ {
            read_args(args, i + 2, st)
        } else if a == "--output"@ {
            if has_value {
                match format_of(val) {
                    Some(f) => read_args(args, i + 2, RunArgsV { format: f, output: None, ..st }),
                    None => read_args(args, i + 2, RunArgsV { format: OutputFormat::Mermaid, output: Some(val), ..st }),
                }
            } else {
                Err("Missing argument for --output"@)
            }
        } else if a == "--diagram"@ {
            if has_value {
                match diagram_of(val) {
                    Some(k) => read_args(args, i + 2, RunArgsV { diagram: k, ..st }),
                    None => Err("Invalid diagram kind: "@ + val),
                }
            } else {
                Err("Missing argument for --diagram"@)
            }
        } else if a == "--depth"@ {
            if has_value {
                match usize_of(val) {
                    Some(d) => read_args(args, i + 2, RunArgsV { depth: Some(d), ..st }),
                    None => Err("Invalid depth: "@ + val),
                }
            } else {
                Err("Missing argument for --depth"@)
            }
        } else {
            read_args(args, i + 1, st)
        }
    }
}

fn is_text(s: &String, t: &str) -> (r: bool)
    ensures
        r == (s@ == t@),
{
    same_text(s, &to_owned_string(t))
}

/// Where `--config` points, if it is given.
pub fn find_config_path(args: &Vec<String>) -> (r: Result<Option<String>, String>)
    ensures
        match config_arg(args.deep_view(), 0) {
            Ok(p) => r matches Ok(q) && opt_seq(q) == p,
            Err(m) => r matches Err(e) && e@ == m,
        },
{
    let ghost a = args.deep_view();
    let mut i: usize = 0;
    while i < args.len()
        invariant
            a == args.deep_view(),
            i <= a.len(),
            config_arg(a, 0) == config_arg(a, i as nat),
        decreases a.len() - i,
    {
        assert(a[i as int] == args@[i as int]@);
        if is_text(&args[i], "--config") {
            if i + 1 < args.len() {
                let p = copy_string(&args[i + 1]);
                assert(a[i + 1] == p@);
                return Ok(Some(p));
            } else {
                return Err(to_owned_string("Missing argument for --config"));
            }
        }
        i = i + 1;
    }
    Ok(None)
}

/// Parses the arguments of the `run` command over a loaded configuration: the
/// configuration gives the first target as the output, its diagram type and its depth
/// (zero for none); `--path`, `--output`, `--diagram` and `--depth` then override them in
/// order, and `--config` names the configuration file.
pub fn parse_run_args(args: &Vec<String>, config: &Config) -> (r: Result<RunArgs, String>)
    ensures
        match config_arg(args.deep_view(), 0) {
            Err(m) => r matches Err(e) && e@ == m,
            Ok(p) => match read_args(args.deep_view(), 0, initial_args(p, config.output.targets.deep_view(),
                config.graph.diagram_type@, config.graph.max_depth)) {
                Ok(v) => r matches Ok(ra) && ra@ == v,
                Err(m) => r matches Err(e) && e@ == m,
            },
        },
{
    let config_path = match find_config_path(args) {
        Ok(p) => p,
        Err(e) => {
            return Err(e);
        },
    };
    let ghost a = args.deep_view();
    let ghost p0 = opt_seq(config_path);
    let ghost init = initial_args(opt_seq(config_path), config.output.targets.deep_view(), config.graph.diagram_type@,
        config.graph.max_depth);
    let output = if config.output.targets.len() > 0 {
        copy_string(&config.output.targets[0])
    } else {
        to_owned_string("README.md")
    };
    let diagram = match parse_diagram_kind(config.graph.diagram_type.as_str()) {
        Ok(k) => k,
        Err(_) => DiagramKind::ModuleGraph,
    };
    let mut cur = RunArgs {
        config_path,
        path: to_owned_string("."),
        format: OutputFormat::Mermaid,
        output: Some(output),
        diagram,
        depth: if config.graph.max_depth == 0 { None } else { Some(config.graph.max_depth) },
    };
    assert(cur@ == init);
    let mut i: usize = 0;
    while i < args.len()
        invariant
            a == args.deep_view(),
            config_arg(a, 0) == Ok::<Option<Seq<char>>, Seq<char>>(p0),
            init == initial_args(p0, config.output.targets.deep_view(), config.graph.diagram_type@, config.graph.max_depth),
            read_args(a, 0, init) == read_args(a, i as nat, cur@),
        decreases a.len() + 2 - i,
    {
        assert(a[i as int] == args@[i as int]@);
        let has_value = i + 1 < args.len();
        if has_value {
            assert(a[i + 1int] == args@[i + 1int]@);
        }
        if is_text(&args[i], "--path") {
            if has_value {
                cur.path = copy_string(&args[i + 1]);
                i = i + 2;
            } else {
                assert(read_args(a, i as nat, cur@) == Err::<RunArgsV, Seq<char>>("Missing argument for --path"@));
                return Err(to_owned_string("Missing argument for --path"));
            }
        } else if is_text(&args[i], "--config") {
            proof {
                if !has_value {
                    assert(read_args(a, (i + 2) as nat, cur@) == Ok::<RunArgsV, Seq<char>>(cur@));
                    assert(read_args(a, a.len(), cur@) == Ok::<RunArgsV, Seq<char>>(cur@));
                }
            }
            i = if has_value { i + 2 } else { args.len() };
        } else if is_text(&args[i], "--output") {
            if has_value {
                let val = &args[i + 1];
                match OutputFormat::parse_format(val.as_str()) {
                    Ok(f) => {
                        cur.format = f;
                        cur.output = None;
                    },
                    Err(_) => {
                        cur.format = OutputFormat::Mermaid;
                        cur.output = Some(copy_string(val));
                    },
                }
                i = i + 2;
            } else {
                return Err(to_owned_string("Missing argument for --output"));
            }
        } else if is_text(&args[i], "--diagram") {
            if has_value {
                match parse_diagram_kind(args[i + 1].as_str()) {
                    Ok(k) => {
                        cur.diagram = k;
                    },
                    Err(e) => {
                        assert(diagram_of(a[i + 1int]) is None);
                        assert(read_args(a, i as nat, cur@) == Err::<RunArgsV, Seq<char>>("Invalid diagram kind: "@ + a[i + 1int]));
                        return Err(e);
                    },
                }
                i = i + 2;
            } else {
                return Err(to_owned_string("Missing argument for --diagram"));
            }
        } else if is_text(&args[i], "--depth") {
            if has_value {
                match parse_usize(&args[i + 1]) {
                    Some(d) => {
                        cur.depth = Some(d);
                    },
                    None => {
                        let mut m = to_owned_string("Invalid depth: ");
                        push_str(&mut m, args[i + 1].as_str());
                        assert(read_args(a, i as nat, cur@) == Err::<RunArgsV, Seq<char>>("Invalid depth: "@ + a[i + 1int]));
                        return Err(m);
                    },
                }
                i = i + 2;
            } else {
                return Err(to_owned_string("Missing argument for --depth"));
            }
        } else {
            i = i + 1;
        }
    }
    Ok(cur)
}

/// What the command line asks for.
#[derive(Debug, Clone, Copy, PartialEq, Eq, Structural)]
pub enum CliAction {
    /// Print the help message.
    Help,
    /// Serve the MCP tools over standard input and output.
    ServeMcp,
    /// `serve` without `--mcp`: refused with "serve requires --mcp flag".
    ServeWithoutMcp,
    /// Build the graph, with the arguments from the third on.
    Run,
    /// Anything else: refused with "Unknown command or options. Try --help".
    Unknown,
}

/// The action of a command line (the program's name first): help wherever `--help` stands,
/// then the subcommand in second place.
pub open spec fn cli_route(args: Seq<Seq<char>>) -> CliAction {
    if args.contains("--help"@) {
        CliAction::Help
    } else if args.len() > 1 && args[1] == "serve"@ {
        if args.contains("--mcp"@) { CliAction::ServeMcp } else { CliAction::ServeWithoutMcp }
    } else if args.len() > 1 && args[1] == "run"@ {
        CliAction::Run
    } else {
        CliAction::Unknown
    }
}

fn has_arg(args: &Vec<String>, t: &str) -> (r: bool)
    ensures
        r == args.deep_view().contains(t@),
{
    let mut i: usize = 0;
    while i < args.len()
        invariant
            i <= args@.len(),
            forall|j: int| 0 <= j < i ==> #[trigger] args.deep_view()[j] != t@,
        decreases args@.len() - i,
    {
        if is_text(&args[i], t) {
            assert(args.deep_view()[i as int] == t@);
            return true;
        }
        i = i + 1;
    }
    false
}

/// Decides what a command line asks for (see `cli_route`).
pub fn route_cli(args: &Vec<String>) -> (r: CliAction)
    ensures
        r == cli_route(args.deep_view()),
{
    if has_arg(args, "--help") {
        return CliAction::Help;
    }
    if args.len() > 1 && is_text(&args[1], "serve") {
        assert(args.deep_view()[1] == args@[1]@);
        if has_arg(args, "--mcp") { CliAction::ServeMcp } else { CliAction::ServeWithoutMcp }
    } else if args.len() > 1 && is_text(&args[1], "run") {
        assert(args.deep_view()[1] == args@[1]@);
        CliAction::Run
    } else {
        proof {
            if args.len() > 1 {
                assert(args.deep_view()[1] == args@[1]@);
            }
        }
        CliAction::Unknown
    }
}

} // verus!
