//! Post-build command hooks: which hooks apply to an artifact, the arguments
//! they receive (placeholders substituted), and what a hook's exit means.
use vstd::prelude::*;
use crate::text::{chars_of, contains, eq_chars, law_replace_absent, match_at, push_str, replace, replace_all, replace_from, string_of};
use crate::typst::{svs, vecs_of};

verus! {

/// A configured hook: a program, its argument template, the formats it runs
/// for (all when empty), whether its failure fails the build, and a label.
#[derive(Debug, Clone)]
pub struct Hook {
    pub command: String,
    pub args: Vec<String>,
    pub formats: Vec<String>,
    pub required: bool,
    pub name: Option<String>,
}

/// `{file}`, `{format}`, `{lang}` and `{slug}` substituted, in that order.
pub open spec fn spec_substitute(
    arg: Seq<char>,
    file: Seq<char>,
    format: Seq<char>,
    lang: Seq<char>,
    slug: Seq<char>,
) -> Seq<char> {
    replace_all(
        replace_all(replace_all(replace_all(arg, "{file}"@, file), "{format}"@, format), "{lang}"@, lang),
        "{slug}"@,
        slug,
    )
}

/// Substitute `{file}`, `{format}`, `{lang}`, `{slug}` in one argument.
pub fn substitute(arg: &str, file: &str, format: &str, lang: &str, slug: &str) -> (r: String)
    ensures
        r@ == spec_substitute(arg@, file@, format@, lang@, slug@),
{
    let a = replace(&chars_of(arg), "{file}", file);
    let b = replace(&a, "{format}", format);
    let c = replace(&b, "{lang}", lang);
    let d = replace(&c, "{slug}", slug);
    string_of(&d)
}

/// Does a hook run for an artifact format: it lists no formats, or lists this one?
pub open spec fn spec_applies(formats: Seq<Seq<char>>, format: Seq<char>) -> bool {
    formats.len() == 0 || formats.contains(format)
}

/// Does the hook run for this artifact format?
pub fn applies(hook: &Hook, format: &str) -> (r: bool)
    ensures
        r == spec_applies(svs(hook.formats@), format@),
{
    if hook.formats.len() == 0 {
        return true;
    }
    let fv = chars_of(format);
    let ghost fs = svs(hook.formats@);
    let mut i: usize = 0;
    while i < hook.formats.len()
        invariant
            0 <= i <= hook.formats@.len(),
            fv@ == format@,
            fs == svs(hook.formats@),
            forall|k: int| 0 <= k < i ==> (#[trigger] fs[k]) != format@,
        decreases hook.formats@.len() - i,
    {
        assert(fs[i as int] == hook.formats@[i as int]@);
        if eq_chars(&chars_of(hook.formats[i].as_str()), &fv) {
            return true;
        }
        i += 1;
    }
    assert(!fs.contains(format@)) by {
        if fs.contains(format@) {
            let k = choose|k: int| 0 <= k < fs.len() && #[trigger] fs[k] == format@;
        }
    }
    false
}

/// A hook's label: its name, else its command.
pub fn label(hook: &Hook) -> (r: String)
    ensures
        r@ == match hook.name {
            Some(n) => n@,
            None => hook.command@,
        },
{
    match &hook.name {
        Some(n) => n.clone(),
        None => hook.command.clone(),
    }
}

/// The arguments a hook runs with: each template argument substituted.
pub fn hook_args(hook: &Hook, file: &str, format: &str, lang: &str, slug: &str) -> (r: Vec<String>)
    ensures
        r@.len() == hook.args@.len(),
        forall|k: int|
            0 <= k < r@.len() ==> (#[trigger] r@[k])@ == spec_substitute(
                hook.args@[k]@,
                file@,
                format@,
                lang@,
                slug@,
            ),
{
    let mut r: Vec<String> = Vec::new();
    let mut i: usize = 0;
    while i < hook.args.len()
        invariant
            0 <= i <= hook.args@.len(),
            r@.len() == i,
            forall|k: int|
                0 <= k < i ==> (#[trigger] r@[k])@ == spec_substitute(
                    hook.args@[k]@,
                    file@,
                    format@,
                    lang@,
                    slug@,
                ),
        decreases hook.args@.len() - i,
    {
        r.push(substitute(hook.args[i].as_str(), file, format, lang, slug));
        i += 1;
    }
    r
}

/// What a finished hook means for the build.
#[derive(Debug, PartialEq, Eq)]
pub enum HookStep {
    /// It succeeded.
    Done,
    /// A required hook failed: the build fails with this message.
    Fail(String),
    /// A hook that is not required failed: a warning, and the build goes on.
    Warn(String),
}

/// The message for a hook that exited unsuccessfully.
pub open spec fn exit_message(label: Seq<char>, status: Seq<char>) -> Seq<char> {
    "hook '"@ + label + "' exited with status "@ + status
}

/// What a hook's exit means: success is done; a failure fails the build when
/// the hook is required and is a warning otherwise (`status` is how the exit
/// status prints).
pub fn exit_step(label: &str, required: bool, success: bool, status: &str) -> (r: HookStep)
    ensures
        success ==> r == HookStep::Done,
        !success && required ==> (r matches HookStep::Fail(m) && m@ == exit_message(label@, status@)),
        !success && !required ==> (r matches HookStep::Warn(m) && m@ == exit_message(
            label@,
            status@,
        )),
{
    if success {
        return HookStep::Done;
    }
    let mut v: Vec<char> = Vec::new();
    push_str(&mut v, "hook '");
    push_str(&mut v, label);
    push_str(&mut v, "' exited with status ");
    push_str(&mut v, status);
    let msg = string_of(&v);
    if required {
        HookStep::Fail(msg)
    } else {
        HookStep::Warn(msg)
    }
}

/// The message for a hook that could not be started.
pub open spec fn spawn_message(label: Seq<char>, command: Seq<char>, err: Seq<char>) -> Seq<char> {
    "failed to spawn hook '"@ + label + "' ("@ + command + "): "@ + err
}

/// What a hook that could not be started means: the build fails when the
/// hook is required, else a warning and the build goes on (`err` is how the
/// failure prints).
pub fn spawn_step(label: &str, command: &str, required: bool, err: &str) -> (r: HookStep)
    ensures
        required ==> (r matches HookStep::Fail(m) && m@ == spawn_message(label@, command@, err@)),
        !required ==> (r matches HookStep::Warn(m) && m@ == spawn_message(label@, command@, err@)),
{
    let mut v: Vec<char> = Vec::new();
    push_str(&mut v, "failed to spawn hook '");
    push_str(&mut v, label);
    push_str(&mut v, "' (");
    push_str(&mut v, command);
    push_str(&mut v, "): ");
    push_str(&mut v, err);
    let msg = string_of(&v);
    if required {
        HookStep::Fail(msg)
    } else {
        HookStep::Warn(msg)
    }
}

// ---------------------------------------------------------------------------
// Laws
// ---------------------------------------------------------------------------

/// An argument without placeholders is passed to the hook unchanged.
pub proof fn law_no_placeholder_unchanged(
    arg: Seq<char>,
    file: Seq<char>,
    format: Seq<char>,
    lang: Seq<char>,
    slug: Seq<char>,
)
    requires
        !contains(arg, "{"@),
    ensures
        spec_substitute(arg, file, format, lang, slug) == arg,
{
    reveal_strlit("{");
    reveal_strlit("{file}");
    reveal_strlit("{format}");
    reveal_strlit("{lang}");
    reveal_strlit("{slug}");
    crate::text::lemma_find_from(arg, "{"@, 0);
    assert forall|k: int, p: Seq<char>| 0 <= k && p.len() > 0 && p[0] == '{' implies !match_at(arg, p, k) by {
        if match_at(arg, p, k) {
            assert(arg[k] == arg.subrange(k, k + p.len())[0]);
            assert(arg.subrange(k, k + 1) =~= "{"@);
            assert(match_at(arg, "{"@, k));
        }
    }
    law_replace_absent(arg, "{file}"@, file, 0);
    assert(arg.skip(0) =~= arg);
    law_replace_absent(arg, "{format}"@, format, 0);
    law_replace_absent(arg, "{lang}"@, lang, 0);
    law_replace_absent(arg, "{slug}"@, slug, 0);
}

} // verus!
