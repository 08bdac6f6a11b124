//! Function declarations, and the shell commands that a declaration's
//! template gives for the arguments a model chose.

use vstd::prelude::*;
use crate::text::{
    chars_of, extend, replace, replace_exec, same_text, string_of, trim, trim_exec,
};

verus! {

/// A parameter of a declared function.
#[derive(Clone, Debug)]
pub struct FunctionParameter {
    pub name: String,
    pub param_type: String,
    pub description: String,
    pub required: bool,
    /// Whether the command must be checked before it runs.
    pub dangerous: Option<bool>,
    /// The command-line flag that a `true` value stands for.
    pub flag: Option<String>,
}

/// A function that a model may call.
#[derive(Clone, Debug)]
pub enum FunctionDeclaration {
    /// A shell command, written as a template with a `{name}` placeholder
    /// for each parameter.
    Shell {
        name: String,
        description: String,
        parameters: Vec<FunctionParameter>,
        command_template: String,
    },
    /// A question put to the user, whose answer must match `regex`.
    Interactive {
        name: String,
        description: String,
        parameters: Vec<FunctionParameter>,
        prompt: String,
        regex: String,
    },
}

/// The views of the (name, value) arguments.
pub open spec fn argument_texts(args: Seq<(&str, &str)>) -> Seq<(Seq<char>, Seq<char>)> {
    args.map_values(|a: (&str, &str)| (a.0@, a.1@))
}

/// The value given last for `key`, if any.
pub open spec fn lookup(args: Seq<(Seq<char>, Seq<char>)>, key: Seq<char>) -> Option<Seq<char>>
    decreases args.len(),
{
    if args.len() == 0 {
        None
    } else if args.last().0 == key {
        Some(args.last().1)
    } else {
        lookup(args.drop_last(), key)
    }
}

/// The placeholder that stands for a parameter in a template.
pub open spec fn placeholder(name: Seq<char>) -> Seq<char> {
    seq!['{'] + name + seq!['}']
}

/// The template after one parameter is filled in: a `true` value puts the
/// parameter's flag in place of the placeholder (and leaves it where there is
/// no flag); a `false` value, or none, removes the placeholder with the space
/// before it; any other value takes the placeholder's place.
pub open spec fn fill_one(t: Seq<char>, p: FunctionParameter, value: Option<Seq<char>>) -> Seq<char> {
    let ph = placeholder(p.name@);
    match value {
        Some(v) => if v == "true"@ {
            match p.flag {
                Some(f) => replace(t, ph, f@),
                None => t,
            }
        } else if v == "false"@ {
            replace(t, seq![' '] + ph, Seq::empty())
        } else {
            replace(t, ph, v)
        },
        None => replace(t, seq![' '] + ph, Seq::empty()),
    }
}

/// A later parameter has the same name as the `i`th.
pub open spec fn shadowed(ps: Seq<FunctionParameter>, i: int) -> bool {
    exists|j: int| i < j < ps.len() && #[trigger] ps[j].name@ == ps[i].name@
}

/// The template after the first `n` parameters are filled in, in order, each
/// name once: where names repeat, the last parameter of a name stands.
pub open spec fn filled(
    t: Seq<char>,
    ps: Seq<FunctionParameter>,
    args: Seq<(Seq<char>, Seq<char>)>,
    n: int,
) -> Seq<char>
    decreases n,
{
    if n <= 0 {
        t
    } else {
        let prev = filled(t, ps, args, n - 1);
        if shadowed(ps, n - 1) {
            prev
        } else {
            fill_one(prev, ps[n - 1], lookup(args, ps[n - 1].name@))
        }
    }
}

/// The command that a shell declaration gives for the arguments.
pub open spec fn command_of(f: FunctionDeclaration, args: Seq<(Seq<char>, Seq<char>)>) -> Seq<
    char,
> {
    match f {
        FunctionDeclaration::Shell { parameters, command_template, .. } => trim(
            filled(command_template@, parameters@, args, parameters@.len() as int),
        ),
        _ => Seq::empty(),
    }
}

/// The value given last for `key` among the arguments.
fn find_argument(args: &[(&str, &str)], key: &Vec<char>) -> (r: Option<Vec<char>>)
    ensures
        r is Some <==> lookup(argument_texts(args@), key@) is Some,
        r matches Some(v) ==> v@ == lookup(argument_texts(args@), key@)->0,
{
    let mut found: Option<Vec<char>> = None;
    let mut i: usize = 0;
    while i < args.len()
        invariant
            i <= args@.len(),
            found is Some <==> lookup(argument_texts(args@).subrange(0, i as int), key@) is Some,
            found matches Some(v) ==> v@ == lookup(
                argument_texts(args@).subrange(0, i as int),
                key@,
            )->0,
        decreases args@.len() - i,
    {
        let ghost seen = argument_texts(args@).subrange(0, i + 1);
        assert(seen.drop_last() =~= argument_texts(args@).subrange(0, i as int));
        assert(seen.last() == (args@[i as int].0@, args@[i as int].1@));
        let k = chars_of(args[i].0);
        if same_text(&k, key) {
            found = Some(chars_of(args[i].1));
        }
        i += 1;
    }
    assert(argument_texts(args@).subrange(0, args@.len() as int) =~= argument_texts(args@));
    found
}

/// Whether a later parameter has the same name as the `i`th.
fn is_shadowed(ps: &Vec<FunctionParameter>, i: usize) -> (r: bool)
    requires
        i < ps@.len(),
    ensures
        r == shadowed(ps@, i as int),
{
    let name = chars_of(ps[i].name.as_str());
    let n = ps.len();
    let mut j: usize = i + 1;
    while j < n
        invariant
            i < j <= n,
            n == ps@.len(),
            name@ == ps@[i as int].name@,
            forall|k: int| i < k < j ==> ps@[k].name@ != ps@[i as int].name@,
        decreases ps@.len() - j,
    {
        let other = chars_of(ps[j].name.as_str());
        if same_text(&other, &name) {
            return true;
        }
        j += 1;
    }
    false
}

/// The template after one parameter is filled in.
fn fill_parameter(t: &Vec<char>, p: &FunctionParameter, value: Option<Vec<char>>) -> (r: Vec<char>)
    ensures
        r@ == fill_one(
            t@,
            *p,
            match value {
                Some(v) => Some(v@),
                None => None,
            },
        ),
{
    let mut ph: Vec<char> = Vec::new();
    ph.push('{');
    let name = chars_of(p.name.as_str());
    extend(&mut ph, &name);
    ph.push('}');
    let mut spaced: Vec<char> = Vec::new();
    spaced.push(' ');
    extend(&mut spaced, &ph);
    let nothing: Vec<char> = Vec::new();
    assert(ph@ =~= placeholder(p.name@));
    assert(spaced@ =~= seq![' '] + placeholder(p.name@));
    let yes = chars_of("true");
    let no = chars_of("false");
    match value {
        Some(v) => {
            if same_text(&v, &yes) {
                match &p.flag {
                    Some(f) => replace_exec(t, &ph, &chars_of(f.as_str())),
                    None => extend_copy(t),
                }
            } else if same_text(&v, &no) {
                replace_exec(t, &spaced, &nothing)
            } else {
                replace_exec(t, &ph, &v)
            }
        },
        None => replace_exec(t, &spaced, &nothing),
    }
}

/// A copy of `t`.
fn extend_copy(t: &Vec<char>) -> (r: Vec<char>)
    ensures
        r@ == t@,
{
    let mut r: Vec<char> = Vec::new();
    extend(&mut r, t);
    r
}

/// The shell command that a declaration's template gives for the arguments
/// a model chose: each parameter's placeholder filled in as its value says,
/// and the result trimmed. Only a shell declaration gives a command.
pub fn generate_command(function: FunctionDeclaration, llm_params: &[(&str, &str)]) -> (r: String)
    requires
        function is Shell,
    ensures
        r@ == command_of(function, argument_texts(llm_params@)),
{
    match function {
        FunctionDeclaration::Shell { parameters, command_template, .. } => {
            let ghost args = argument_texts(llm_params@);
            let ghost t0 = command_template@;
            let mut command = chars_of(command_template.as_str());
            let mut i: usize = 0;
            while i < parameters.len()
                invariant
                    i <= parameters@.len(),
                    args == argument_texts(llm_params@),
                    command@ == filled(t0, parameters@, args, i as int),
                decreases parameters@.len() - i,
            {
                if !is_shadowed(&parameters, i) {
                    let name = chars_of(parameters[i].name.as_str());
                    let value = find_argument(llm_params, &name);
                    command = fill_parameter(&command, &parameters[i], value);
                }
                i += 1;
            }
            string_of(&trim_exec(&command))
        },
        FunctionDeclaration::Interactive { .. } => String::new(),
    }
}

} // verus!
