//! Launch-plan resolution: the `DSH_CLIENT_BIN` override, then `dsh` on PATH,
//! then `npx -y @deepseek-ai/dsh@latest`. [`DshInvocation`] is the resolved
//! "how to reach the dsh CLI" (program plus binary-selecting prefix);
//! [`LaunchPlan`] is one concrete argv built from it. Whether `dsh` and `npx`
//! are on PATH is looked up by the caller and handed in.

use vstd::prelude::*;
use crate::text::{
    chars_of, join, join_strings, lemma_trim_first, lemma_words_nonempty, split_ws, str_views,
    string_views, trim, trimmed, words,
};

verus! {

/// How to launch one dsh command: program plus the full argument vector.
#[derive(Debug, Clone)]
pub struct LaunchPlan {
    pub program: String,
    pub args: Vec<String>,
}

/// How to reach the dsh CLI on this machine: program plus the argument
/// prefix that selects the dsh binary (override tokens / npx package spec).
/// The subcommand and its arguments are appended by [`DshInvocation::plan`].
#[derive(Debug, Clone)]
pub struct DshInvocation {
    pub program: String,
    pub prefix: Vec<String>,
}

/// The package spec `npx` is asked to run.
pub open spec fn npx_prefix() -> Seq<Seq<char>> {
    seq!["-y"@, "@deepseek-ai/dsh@latest"@]
}

/// Whether an override is set to something other than blanks.
pub open spec fn override_set(bin_override: Option<&str>) -> bool {
    bin_override matches Some(b) && trim(b@).len() > 0
}

/// Program and prefix the resolution picks: the override's first word and the
/// rest of its words; else `dsh` when on PATH; else `npx` with the package
/// spec when on PATH; else the bare `dsh`, so that the spawn error names it.
pub open spec fn invocation_spec(bin_override: Option<&str>, dsh_on_path: bool, npx_on_path: bool) -> (
    Seq<char>,
    Seq<Seq<char>>,
) {
    match bin_override {
        Some(b) if trim(b@).len() > 0 => {
            let w = words(trim(b@));
            (w[0], w.skip(1))
        },
        _ => if dsh_on_path {
            ("dsh"@, seq![])
        } else if npx_on_path {
            ("npx"@, npx_prefix())
        } else {
            ("dsh"@, seq![])
        },
    }
}

impl DshInvocation {
    /// One concrete argv: the prefix followed by `args`, e.g.
    /// `plan(&["web", "--port", "0"])`.
    pub fn plan(&self, args: &[&str]) -> (r: LaunchPlan)
        ensures
            r.program@ == self.program@,
            string_views(r.args@) == string_views(self.prefix@) + str_views(args@),
    {
        let mut full: Vec<String> = Vec::new();
        let mut i: usize = 0;
        while i < self.prefix.len()
            invariant
                i <= self.prefix@.len(),
                string_views(full@) == string_views(self.prefix@).take(i as int),
            decreases self.prefix@.len() - i,
        {
            let ghost before = string_views(full@);
            full.push(self.prefix[i].clone());
            assert(string_views(full@) =~= before.push(self.prefix@[i as int]@));
            assert(string_views(self.prefix@).take(i + 1) =~= string_views(self.prefix@).take(
                i as int,
            ).push(self.prefix@[i as int]@));
            i += 1;
        }
        assert(string_views(self.prefix@).take(self.prefix@.len() as int) =~= string_views(
            self.prefix@,
        ));
        let mut j: usize = 0;
        while j < args.len()
            invariant
                j <= args@.len(),
                string_views(full@) == string_views(self.prefix@) + str_views(args@).take(j as int),
            decreases args@.len() - j,
        {
            let ghost before = string_views(full@);
            full.push(args[j].to_owned());
            assert(string_views(full@) =~= before.push(args@[j as int]@));
            assert(str_views(args@).take(j + 1) =~= str_views(args@).take(j as int).push(
                args@[j as int]@,
            ));
            j += 1;
        }
        assert(str_views(args@).take(args@.len() as int) =~= str_views(args@));
        LaunchPlan { program: self.program.clone(), args: full }
    }

    /// One-line display for diagnostics (`"{program} {prefix joined by ' '}"`);
    /// never executed.
    pub fn display(&self) -> (r: String)
        ensures
            r@ == self.program@ + " "@ + join(string_views(self.prefix@), " "@),
    {
        let mut r = self.program.clone();
        r.append(" ");
        let rest = join_strings(&self.prefix, " ");
        r.append(rest.as_str());
        r
    }
}

impl LaunchPlan {
    /// One-line display for diagnostics (`"{program} {args joined by ' '}"`);
    /// never executed.
    pub fn display(&self) -> (r: String)
        ensures
            r@ == self.program@ + " "@ + join(string_views(self.args@), " "@),
    {
        let mut r = self.program.clone();
        r.append(" ");
        let rest = join_strings(&self.args, " ");
        r.append(rest.as_str());
        r
    }
}

/// The words of a set override, with at least one present.
fn override_words(b: &str) -> (w: Vec<String>)
    requires
        trim(b@).len() > 0,
    ensures
        string_views(w@) == words(trim(b@)),
        w@.len() > 0,
{
    let t = trimmed(chars_of(b).as_slice());
    let w = split_ws(t.as_slice());
    proof {
        lemma_trim_first(b@);
        lemma_words_nonempty(trim(b@), seq![], 0);
    }
    w
}

/// Resolves how this machine reaches the dsh CLI, given the override and
/// whether `dsh` and `npx` are on PATH.
pub fn resolve_invocation(bin_override: Option<&str>, dsh_on_path: bool, npx_on_path: bool) -> (r:
    DshInvocation)
    ensures
        (r.program@, string_views(r.prefix@)) == invocation_spec(
            bin_override,
            dsh_on_path,
            npx_on_path,
        ),
{
    if let Some(b) = bin_override {
        if trimmed(chars_of(b).as_slice()).len() > 0 {
            let mut w = override_words(b);
            let ghost all = string_views(w@);
            let program = w.remove(0);
            assert(string_views(w@) =~= all.skip(1));
            return DshInvocation { program, prefix: w };
        }
    }
    if dsh_on_path {
        let r = DshInvocation { program: String::from_str("dsh"), prefix: Vec::new() };
        assert(string_views(r.prefix@) =~= Seq::<Seq<char>>::empty());
        return r;
    }
    if npx_on_path {
        let mut prefix: Vec<String> = Vec::new();
        prefix.push(String::from_str("-y"));
        prefix.push(String::from_str("@deepseek-ai/dsh@latest"));
        let r = DshInvocation { program: String::from_str("npx"), prefix };
        assert(string_views(r.prefix@) =~= npx_prefix());
        return r;
    }
    let r = DshInvocation { program: String::from_str("dsh"), prefix: Vec::new() };
    assert(string_views(r.prefix@) =~= Seq::<Seq<char>>::empty());
    r
}

/// The subcommand that runs the daemon.
pub open spec fn web_args() -> Seq<Seq<char>> {
    seq!["web"@, "--port"@, "0"@]
}

/// Resolves how this machine launches `dsh web --port 0`.
pub fn resolve_launch(bin_override: Option<&str>, dsh_on_path: bool, npx_on_path: bool) -> (r:
    LaunchPlan)
    ensures
        r.program@ == invocation_spec(bin_override, dsh_on_path, npx_on_path).0,
        string_views(r.args@) == invocation_spec(bin_override, dsh_on_path, npx_on_path).1
            + web_args(),
{
    let inv = resolve_invocation(bin_override, dsh_on_path, npx_on_path);
    let args: [&str; 3] = ["web", "--port", "0"];
    let r = inv.plan(args.as_slice());
    assert(str_views(args@) =~= web_args());
    r
}

/// First whitespace-separated word of a set override; the same binary that
/// [`resolve_invocation`] would pick as the program.
pub fn extract_bin_token(bin_override: Option<&str>) -> (r: Option<String>)
    ensures
        match bin_override {
            Some(b) if trim(b@).len() > 0 => r matches Some(t) && t@ == words(trim(b@))[0],
            _ => r is None,
        },
{
    match bin_override {
        Some(b) => {
            if trimmed(chars_of(b).as_slice()).len() > 0 {
                let mut w = override_words(b);
                Some(w.remove(0))
            } else {
                None
            }
        },
        None => None,
    }
}


/// The binary the preflight probes is the program the invocation runs: with
/// an override set, `extract_bin_token` gives the override's first word, and
/// `resolve_invocation` picks that same word as the program, whatever is on
/// PATH.
pub proof fn lemma_probe_targets_launched_program(
    bin_override: Option<&str>,
    dsh_on_path: bool,
    npx_on_path: bool,
)
    requires
        override_set(bin_override),
    ensures
        invocation_spec(bin_override, dsh_on_path, npx_on_path).0 == words(trim(bin_override->0@))[0],
        invocation_spec(bin_override, dsh_on_path, npx_on_path) == invocation_spec(
            bin_override,
            false,
            false,
        ),
{
}

} // verus!
