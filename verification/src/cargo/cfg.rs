//! The conditions that a Cargo manifest puts on the target machine.

use vstd::prelude::*;

use crate::build_config_key;
use crate::error::{error, fault, outcome, Error, ErrorKind, Fault};
use crate::model::PluginContext;
use crate::table::found_number;
use crate::text::{
    after_prefix, before_suffix, cat2, chars_of, cut, is_space, joined, keep, lemma_end, lemma_joined_front, lemma_spaces,
    lemma_trimmed_behind_space, lemma_trimmed_same, lemma_trimmed_twice, same, split_once, strip_prefix, strip_suffix,
    text_of, trim, trim_matches, trim_start, trimmed, trimmed_start, without_surrounding,
};

verus! {

/// The facts that are known of the target machine, by their numbers.
pub type Facts = Seq<(u32, Seq<char>)>;

/// The arguments of a call of `name` that `directive` is.
pub open spec fn call_arguments(directive: Seq<char>, name: Seq<char>) -> Option<Seq<char>> {
    match after_prefix(directive, name) {
        None => None,
        Some(rest) => match after_prefix(trimmed_start(rest), "("@) {
            None => None,
            Some(inner) => before_suffix(inner, ")"@),
        },
    }
}

fn strip_cfg_call(directive: &str, name: &str) -> (r: Option<String>)
    ensures
        r.deep_view() == call_arguments(directive@, name@),
{
    match strip_prefix(directive, name) {
        None => None,
        Some(rest) => match strip_prefix(trim_start(rest.as_str()).as_str(), "(") {
            None => None,
            Some(inner) => strip_suffix(inner.as_str(), ")"),
        },
    }
}

pub open spec fn unbalanced(args: Seq<char>) -> Fault {
    fault(ErrorKind::InvalidData, "unbalanced cfg directive: "@ + args)
}

/// `found` behind `done`.
pub open spec fn behind(done: Seq<Seq<char>>, found: Result<Seq<Seq<char>>, Fault>) -> Result<Seq<Seq<char>>, Fault> {
    match found {
        Ok(rest) => Ok(done + rest),
        Err(e) => Err(e),
    }
}

/// The arguments in `args[start..]`, where `args[start..i]` was read without a
/// comma between arguments, `depth` parentheses are open, and `quoted` says
/// whether a quotation is.
pub open spec fn arguments_from(args: Seq<char>, start: int, i: int, depth: int, quoted: bool) -> Result<
    Seq<Seq<char>>,
    Fault,
>
    decreases args.len() - i,
{
    if i >= args.len() {
        let tail = trimmed(args.subrange(start, args.len() as int));
        if quoted || depth != 0 {
            Err(unbalanced(args))
        } else if tail.len() == 0 {
            Ok(Seq::empty())
        } else {
            Ok(seq![tail])
        }
    } else if args[i] == '"' {
        arguments_from(args, start, i + 1, depth, !quoted)
    } else if args[i] == '(' && !quoted {
        arguments_from(args, start, i + 1, depth + 1, quoted)
    } else if args[i] == ')' && !quoted {
        if depth == 0 {
            Err(unbalanced(args))
        } else {
            arguments_from(args, start, i + 1, depth - 1, quoted)
        }
    } else if args[i] == ',' && !quoted && depth == 0 {
        behind(seq![trimmed(args.subrange(start, i))], arguments_from(args, i + 1, i + 1, depth, quoted))
    } else {
        arguments_from(args, start, i + 1, depth, quoted)
    }
}

/// The arguments between the commas of `args` that stand in no parentheses
/// and no quotation.
pub open spec fn arguments(args: Seq<char>) -> Result<Seq<Seq<char>>, Fault> {
    arguments_from(args, 0, 0, 0, false)
}

fn split_cfg_args(args: &str) -> (r: Result<Vec<String>, Error>)
    ensures
        outcome(r) == arguments(args@),
{
    let chars = chars_of(args);
    let mut out: Vec<String> = Vec::new();
    let mut depth: usize = 0;
    let mut quoted = false;
    let mut start: usize = 0;
    let mut i: usize = 0;
    assert(out.deep_view() =~= Seq::<Seq<char>>::empty());
    assert(behind(out.deep_view(), arguments(args@)) == arguments(args@)) by {
        if arguments(args@) is Ok {
            assert(out.deep_view() + arguments(args@)->Ok_0 =~= arguments(args@)->Ok_0);
        }
    }
    while i < chars.len()
        invariant
            start <= i <= chars@.len(),
            depth <= i,
            chars@ == args@,
            behind(out.deep_view(), arguments_from(args@, start as int, i as int, depth as int, quoted)) == arguments(
                args@,
            ),
        decreases chars.len() - i,
    {
        let c = chars[i];
        if c == '"' {
            quoted = !quoted;
        } else if c == '(' && !quoted {
            depth = depth + 1;
        } else if c == ')' && !quoted {
            if depth == 0 {
                return Err(error(ErrorKind::InvalidData, cat2("unbalanced cfg directive: ", args)));
            }
            depth = depth - 1;
        } else if c == ',' && !quoted && depth == 0 {
            let ghost done = out.deep_view();
            let ghost rest = arguments_from(args@, i + 1, i + 1, depth as int, quoted);
            keep(&mut out, trim(text_of(&chars, start, i).as_str()));
            assert(behind(done, behind(seq![trimmed(args@.subrange(start as int, i as int))], rest)) == behind(
                out.deep_view(),
                rest,
            )) by {
                if rest is Ok {
                    assert(done + (seq![trimmed(args@.subrange(start as int, i as int))] + rest->Ok_0)
                        =~= out.deep_view() + rest->Ok_0);
                }
            }
            start = i + 1;
        }
        i = i + 1;
    }
    if quoted || depth != 0 {
        return Err(error(ErrorKind::InvalidData, cat2("unbalanced cfg directive: ", args)));
    }
    let tail = trim(text_of(&chars, start, chars.len()).as_str());
    let ghost done = out.deep_view();
    if !tail.as_str().is_empty() {
        keep(&mut out, tail);
        assert(done + seq![tail@] =~= out.deep_view());
    } else {
        assert(done + Seq::<Seq<char>>::empty() =~= out.deep_view());
    }
    Ok(out)
}

proof fn lemma_trimmed_length(s: Seq<char>)
    ensures
        trimmed(s).len() <= s.len(),
        trimmed_start(s).len() <= s.len(),
{
    lemma_spaces(s, 0);
    lemma_end(trimmed_start(s), trimmed_start(s).len() as int);
}

proof fn lemma_arguments_length(args: Seq<char>, start: int, i: int, depth: int, quoted: bool)
    requires
        0 <= start <= i <= args.len(),
    ensures
        arguments_from(args, start, i, depth, quoted) matches Ok(list) ==> forall|j: int|
            0 <= j < list.len() ==> (#[trigger] list[j]).len() <= args.len(),
    decreases args.len() - i,
{
    if i >= args.len() {
        lemma_trimmed_length(args.subrange(start, args.len() as int));
    } else if args[i] == '"' {
        lemma_arguments_length(args, start, i + 1, depth, !quoted);
    } else if args[i] == '(' && !quoted {
        lemma_arguments_length(args, start, i + 1, depth + 1, quoted);
    } else if args[i] == ')' && !quoted {
        lemma_arguments_length(args, start, i + 1, depth - 1, quoted);
    } else if args[i] == ',' && !quoted && depth == 0 {
        lemma_trimmed_length(args.subrange(start, i));
        lemma_arguments_length(args, i + 1, i + 1, depth, quoted);
    } else {
        lemma_arguments_length(args, start, i + 1, depth, quoted);
    }
}

/// The arguments of a call are shorter than the directive.
pub proof fn lemma_shorter(directive: Seq<char>, name: Seq<char>)
    ensures
        call_arguments(trimmed(directive), name) matches Some(args) ==> {
            &&& args.len() < directive.len()
            &&& arguments(args) matches Ok(list) ==> all_shorter(list, directive.len())
        },
{
    reveal_strlit("(");
    reveal_strlit(")");
    lemma_trimmed_length(directive);
    let d = trimmed(directive);
    if let Some(rest) = after_prefix(d, name) {
        lemma_trimmed_length(rest);
    }
    if let Some(args) = call_arguments(d, name) {
        lemma_arguments_length(args, 0, 0, 0, false);
    }
}

/// Whether each text in `list` has fewer than `bound` characters.
pub open spec fn all_shorter(list: Seq<Seq<char>>, bound: nat) -> bool {
    forall|j: int| 0 <= j < list.len() ==> (#[trigger] list[j]).len() < bound
}

/// Whether every directive in `list[i..]` holds; the first that does not
/// decides.
pub open spec fn all_hold(facts: Facts, list: Seq<Seq<char>>, i: int, bound: nat) -> Result<bool, Fault>
    decreases 2 * bound, list.len() - i,
    when all_shorter(list, bound) && 0 <= i
{
    if i >= list.len() {
        Ok(true)
    } else {
        match holds(facts, list[i]) {
            Err(e) => Err(e),
            Ok(false) => Ok(false),
            Ok(true) => all_hold(facts, list, i + 1, bound),
        }
    }
}

/// Whether a directive in `list[i..]` holds; the first that does decides.
pub open spec fn any_holds(facts: Facts, list: Seq<Seq<char>>, i: int, bound: nat) -> Result<bool, Fault>
    decreases 2 * bound, list.len() - i,
    when all_shorter(list, bound) && 0 <= i
{
    if i >= list.len() {
        Ok(false)
    } else {
        match holds(facts, list[i]) {
            Err(e) => Err(e),
            Ok(true) => Ok(true),
            Ok(false) => any_holds(facts, list, i + 1, bound),
        }
    }
}

/// The number of the fact that a key of a directive names.
pub open spec fn fact_key(key: Seq<char>) -> Option<u32> {
    if key == "target_family"@ {
        Some(build_config_key::TARGET_FAMILY)
    } else if key == "target_os"@ {
        Some(build_config_key::TARGET_OS)
    } else if key == "target_env"@ {
        Some(build_config_key::TARGET_ENV)
    } else if key == "target_arch"@ {
        Some(build_config_key::TARGET_ARCH)
    } else if key == "target_vendor"@ {
        Some(build_config_key::TARGET_VENDOR)
    } else if key == "target_endian"@ {
        Some(build_config_key::TARGET_ENDIAN)
    } else {
        None
    }
}

/// Whether a directive that is no call holds.
pub open spec fn plain_holds(facts: Facts, directive: Seq<char>) -> bool {
    if directive == "unix"@ {
        found_number(facts, build_config_key::TARGET_FAMILY) == Some("unix"@)
    } else if directive == "windows"@ {
        found_number(facts, build_config_key::TARGET_FAMILY) == Some("windows"@)
    } else {
        match cut(directive, '=') {
            None => false,
            Some((key, value)) => match fact_key(trimmed(key)) {
                None => false,
                Some(number) => found_number(facts, number) == Some(without_surrounding(trimmed(value), '"')),
            },
        }
    }
}

/// Whether a directive holds on a machine with the given facts.
pub open spec fn holds(facts: Facts, directive: Seq<char>) -> Result<bool, Fault>
    decreases 2 * directive.len() + 1, 0int,
{
    proof {
        lemma_shorter(directive, "all"@);
        lemma_shorter(directive, "any"@);
        lemma_shorter(directive, "not"@);
    }
    let d = trimmed(directive);
    if let Some(args) = call_arguments(d, "all"@) {
        match arguments(args) {
            Err(e) => Err(e),
            Ok(list) => all_hold(facts, list, 0, directive.len()),
        }
    } else if let Some(args) = call_arguments(d, "any"@) {
        match arguments(args) {
            Err(e) => Err(e),
            Ok(list) => any_holds(facts, list, 0, directive.len()),
        }
    } else if let Some(args) = call_arguments(d, "not"@) {
        match arguments(args) {
            Err(e) => Err(e),
            Ok(list) => if list.len() != 1 {
                Err(fault(ErrorKind::InvalidData, "not() expects one cfg argument: "@ + d))
            } else {
                match holds(facts, list[0]) {
                    Err(e) => Err(e),
                    Ok(value) => Ok(!value),
                }
            },
        }
    } else {
        Ok(plain_holds(facts, d))
    }
}

proof fn lemma_all(facts: Facts, list: Seq<Seq<char>>, i: int, bound: nat)
    requires
        all_shorter(list, bound),
        0 <= i <= list.len(),
    ensures
        all_hold(facts, list, i, bound) == Ok::<bool, Fault>(true) <==> forall|j: int|
            i <= j < list.len() ==> holds(facts, #[trigger] list[j]) == Ok::<bool, Fault>(true),
    decreases list.len() - i,
{
    if i < list.len() {
        lemma_all(facts, list, i + 1, bound);
        if all_hold(facts, list, i, bound) == Ok::<bool, Fault>(true) {
            assert(holds(facts, list[i]) == Ok::<bool, Fault>(true));
        }
    }
}

/// `all` holds just where each of its arguments does.
pub proof fn law_all(facts: Facts, list: Seq<Seq<char>>, bound: nat)
    requires
        all_shorter(list, bound),
    ensures
        all_hold(facts, list, 0, bound) == Ok::<bool, Fault>(true) <==> forall|j: int|
            0 <= j < list.len() ==> holds(facts, #[trigger] list[j]) == Ok::<bool, Fault>(true),
{
    lemma_all(facts, list, 0, bound);
}

proof fn lemma_any(facts: Facts, list: Seq<Seq<char>>, i: int, bound: nat)
    requires
        all_shorter(list, bound),
        0 <= i <= list.len(),
    ensures
        any_holds(facts, list, i, bound) == Ok::<bool, Fault>(false) <==> forall|j: int|
            i <= j < list.len() ==> holds(facts, #[trigger] list[j]) == Ok::<bool, Fault>(false),
    decreases list.len() - i,
{
    if i < list.len() {
        lemma_any(facts, list, i + 1, bound);
        if any_holds(facts, list, i, bound) == Ok::<bool, Fault>(false) {
            assert(holds(facts, list[i]) == Ok::<bool, Fault>(false));
        }
    }
}

/// `any` fails to hold just where each of its arguments does.
pub proof fn law_any(facts: Facts, list: Seq<Seq<char>>, bound: nat)
    requires
        all_shorter(list, bound),
    ensures
        any_holds(facts, list, 0, bound) == Ok::<bool, Fault>(false) <==> forall|j: int|
            0 <= j < list.len() ==> holds(facts, #[trigger] list[j]) == Ok::<bool, Fault>(false),
{
    lemma_any(facts, list, 0, bound);
}

/// Whether the quotations and the parentheses of `s[i..]`, with `depth` open
/// before and `quoted` saying whether a quotation is, are closed at the end, and
/// no comma stands outside of them.
pub open spec fn closed_from(s: Seq<char>, i: int, depth: int, quoted: bool) -> bool
    decreases s.len() - i,
{
    if i >= s.len() {
        !quoted && depth == 0
    } else if s[i] == '"' {
        closed_from(s, i + 1, depth, !quoted)
    } else if s[i] == '(' && !quoted {
        closed_from(s, i + 1, depth + 1, quoted)
    } else if s[i] == ')' && !quoted {
        depth != 0 && closed_from(s, i + 1, depth - 1, quoted)
    } else if s[i] == ',' && !quoted && depth == 0 {
        false
    } else {
        closed_from(s, i + 1, depth, quoted)
    }
}

/// Whether `s` can be an argument: it is more than space, balanced, and has no
/// comma but in parentheses or quotations.
pub open spec fn is_argument(s: Seq<char>) -> bool {
    trimmed(s).len() > 0 && closed_from(s, 0, 0, false)
}

/// Whether each of `args` can be an argument.
pub open spec fn are_arguments(args: Seq<Seq<char>>) -> bool {
    forall|i: int| 0 <= i < args.len() ==> is_argument(#[trigger] args[i])
}

/// The call of `name` with the arguments `args`, as it is written.
pub open spec fn written_call(name: Seq<char>, args: Seq<Seq<char>>) -> Seq<char> {
    name + "("@ + joined(args, ", "@) + ")"@
}

/// `args` without white space around them.
spec fn all_trimmed(args: Seq<Seq<char>>) -> Seq<Seq<char>> {
    args.map_values(|s: Seq<char>| trimmed(s))
}

/// Reading over an argument `s` that stands in `args` at `p` ends behind it.
proof fn lemma_read_over(args: Seq<char>, start: int, p: int, s: Seq<char>, i: int, depth: int, quoted: bool)
    requires
        0 <= p,
        0 <= i <= s.len(),
        p + s.len() <= args.len(),
        args.subrange(p, p + s.len()) == s,
        closed_from(s, i, depth, quoted),
    ensures
        arguments_from(args, start, p + i, depth, quoted) == arguments_from(args, start, p + s.len(), 0, false),
    decreases s.len() - i,
{
    if i < s.len() {
        assert(args[p + i] == args.subrange(p, p + s.len())[i]);
        if s[i] == '"' {
            lemma_read_over(args, start, p, s, i + 1, depth, !quoted);
        } else if s[i] == '(' && !quoted {
            lemma_read_over(args, start, p, s, i + 1, depth + 1, quoted);
        } else if s[i] == ')' && !quoted {
            lemma_read_over(args, start, p, s, i + 1, depth - 1, quoted);
        } else {
            lemma_read_over(args, start, p, s, i + 1, depth, quoted);
        }
    }
}

/// The arguments `list`, written with commas between them behind `start`, and a
/// space before them or none, are read as they are.
proof fn lemma_read_arguments(args: Seq<char>, start: int, list: Seq<Seq<char>>, spaced: bool)
    requires
        0 <= start <= args.len(),
        list.len() > 0,
        are_arguments(list),
        args.subrange(start, args.len() as int) == (if spaced {
            seq![' '] + joined(list, ", "@)
        } else {
            joined(list, ", "@)
        }),
    ensures
        arguments_from(args, start, start, 0, false) == Ok::<Seq<Seq<char>>, Fault>(
            all_trimmed(list),
        ),
    decreases list.len(),
{
    reveal_strlit(", ");
    let all = all_trimmed(list);
    let first = list[0];
    let rest = list.skip(1);
    let tail = args.subrange(start, args.len() as int);
    let text = joined(list, ", "@);
    let p = if spaced {
        start + 1
    } else {
        start
    };
    assert(is_argument(first));
    assert(list =~= seq![first] + rest);
    if rest.len() == 0 {
        assert(list =~= seq![first]);
        assert(list.drop_last() =~= Seq::<Seq<char>>::empty());
        assert(text =~= first);
    } else {
        lemma_joined_front(first, rest, ", "@);
        assert(text == first + ", "@ + joined(rest, ", "@));
    }
    assert(tail.len() == args.len() - start);
    assert(args.len() == p + text.len()) by {
        if spaced {
            assert(tail == seq![' '] + text);
        } else {
            assert(tail == text);
        }
    }
    assert forall|k: int| 0 <= k < text.len() implies args[p + k] == #[trigger] text[k] by {
        assert(args[p + k] == tail[p + k - start]);
        if spaced {
            assert(tail == seq![' '] + text);
        } else {
            assert(tail == text);
        }
    }
    assert(args.subrange(p, p + first.len()) =~= first) by {
        assert forall|k: int| 0 <= k < first.len() implies args.subrange(p, p + first.len())[k] == #[trigger] first[k] by {
            assert(args[p + k] == text[k]);
        }
    }
    if spaced {
        assert(args[start] == tail[0]);
        assert(arguments_from(args, start, start, 0, false) == arguments_from(args, start, p, 0, false));
    }
    lemma_read_over(args, start, p, first, 0, 0, false);
    let head = args.subrange(start, p + first.len());
    if spaced {
        assert(head =~= seq![' '] + first) by {
            assert(args[start] == tail[0]);
        }
        lemma_trimmed_behind_space(first);
    } else {
        assert(head =~= first);
    }
    if rest.len() == 0 {
        assert(args.subrange(start, args.len() as int) =~= head);
        assert(all =~= seq![trimmed(first)]);
    } else {
        let q = p + first.len() + 1;
        assert(args[q - 1] == text[first.len() as int]);
        let more = seq![' '] + joined(rest, ", "@);
        assert(args.subrange(q, args.len() as int) =~= more) by {
            assert forall|k: int| 0 <= k < more.len() implies args.subrange(q, args.len() as int)[k] == #[trigger] more[k] by {
                assert(args[p + (first.len() + 1 + k)] == text[first.len() + 1 + k]);
            }
        }
        assert forall|i: int| 0 <= i < rest.len() implies is_argument(#[trigger] rest[i]) by {
            assert(rest[i] == list[i + 1]);
        }
        lemma_read_arguments(args, q, rest, true);
        assert(all =~= seq![trimmed(first)] + all_trimmed(rest));
    }
}

/// The arguments of a written call are read as they are.
proof fn lemma_arguments(list: Seq<Seq<char>>)
    requires
        are_arguments(list),
    ensures
        arguments(joined(list, ", "@)) == Ok::<Seq<Seq<char>>, Fault>(all_trimmed(list)),
{
    let args = joined(list, ", "@);
    if list.len() == 0 {
        assert(args.subrange(0, 0) =~= Seq::<char>::empty());
        lemma_trimmed_length(Seq::empty());
        assert(all_trimmed(list) =~= Seq::<Seq<char>>::empty());
    } else {
        assert(args.subrange(0, args.len() as int) =~= args);
        lemma_read_arguments(args, 0, list, false);
    }
}

proof fn lemma_call(name: Seq<char>, list: Seq<Seq<char>>)
    requires
        name.len() > 0,
        !is_space(name[0]),
    ensures
        trimmed(written_call(name, list)) == written_call(name, list),
        call_arguments(written_call(name, list), name) == Some(joined(list, ", "@)),
{
    reveal_strlit("(");
    reveal_strlit(")");
    let text = written_call(name, list);
    let args = joined(list, ", "@);
    assert(text[0] == name[0]);
    lemma_trimmed_same(text);
    assert(text.subrange(0, name.len() as int) =~= name);
    let rest = text.subrange(name.len() as int, text.len() as int);
    assert(rest =~= "("@ + args + ")"@);
    lemma_trimmed_same(rest);
    assert(rest.subrange(0, 1) =~= "("@);
    let inner = rest.subrange(1, rest.len() as int);
    assert(inner =~= args + ")"@);
    assert(inner.subrange(inner.len() - 1, inner.len() as int) =~= ")"@);
    assert(inner.subrange(0, inner.len() - 1) =~= args);
}

proof fn lemma_bound(facts: Facts, list: Seq<Seq<char>>, i: int, a: nat, b: nat)
    requires
        all_shorter(list, a),
        all_shorter(list, b),
        0 <= i,
    ensures
        all_hold(facts, list, i, a) == all_hold(facts, list, i, b),
        any_holds(facts, list, i, a) == any_holds(facts, list, i, b),
    decreases list.len() - i,
{
    if i < list.len() {
        lemma_bound(facts, list, i + 1, a, b);
    }
}

/// White space around a directive makes no difference.
proof fn lemma_holds_trimmed(facts: Facts, directive: Seq<char>)
    ensures
        holds(facts, trimmed(directive)) == holds(facts, directive),
{
    let d = trimmed(directive);
    lemma_trimmed_twice(directive);
    lemma_shorter(directive, "all"@);
    lemma_shorter(directive, "any"@);
    lemma_shorter(d, "all"@);
    lemma_shorter(d, "any"@);
    if let Some(args) = call_arguments(d, "all"@) {
        if let Ok(list) = arguments(args) {
            lemma_bound(facts, list, 0, d.len(), directive.len());
        }
    }
    if let Some(args) = call_arguments(d, "any"@) {
        if let Ok(list) = arguments(args) {
            lemma_bound(facts, list, 0, d.len(), directive.len());
        }
    }
}

/// Whether each of `list` holds.
pub open spec fn every_holds(facts: Facts, list: Seq<Seq<char>>) -> bool {
    forall|i: int| 0 <= i < list.len() ==> holds(facts, #[trigger] list[i]) == Ok::<bool, Fault>(true)
}

/// Whether one of `list` holds.
pub open spec fn some_holds(facts: Facts, list: Seq<Seq<char>>) -> bool {
    exists|i: int| 0 <= i < list.len() && holds(facts, #[trigger] list[i]) == Ok::<bool, Fault>(true)
}

/// Whether of each of `list` it is known that it holds, or that it does not.
pub open spec fn all_known(facts: Facts, list: Seq<Seq<char>>) -> bool {
    forall|i: int| 0 <= i < list.len() ==> holds(facts, #[trigger] list[i]) is Ok
}

proof fn lemma_every(facts: Facts, list: Seq<Seq<char>>, i: int, bound: nat)
    requires
        all_known(facts, list),
        all_shorter(list, bound),
        0 <= i <= list.len(),
    ensures
        all_hold(facts, list, i, bound) is Ok,
        any_holds(facts, list, i, bound) is Ok,
    decreases list.len() - i,
{
    if i < list.len() {
        assert(holds(facts, list[i]) is Ok);
        lemma_every(facts, list, i + 1, bound);
    }
}

proof fn lemma_decided(r: Result<bool, Fault>)
    requires
        r is Ok,
    ensures
        r == Ok::<bool, Fault>(true) || r == Ok::<bool, Fault>(false),
{
    match r {
        Ok(value) => {
            if value {
                assert(r == Ok::<bool, Fault>(true));
            } else {
                assert(r == Ok::<bool, Fault>(false));
            }
        },
        Err(_) => {},
    }
}

/// What lists of known directives come to.
proof fn lemma_known(facts: Facts, list: Seq<Seq<char>>, bound: nat)
    requires
        all_known(facts, list),
        all_shorter(list, bound),
    ensures
        all_hold(facts, list, 0, bound) == Ok::<bool, Fault>(every_holds(facts, list)),
        any_holds(facts, list, 0, bound) == Ok::<bool, Fault>(some_holds(facts, list)),
{
    lemma_every(facts, list, 0, bound);
    lemma_all(facts, list, 0, bound);
    lemma_any(facts, list, 0, bound);
    if some_holds(facts, list) {
        let i = choose|i: int| 0 <= i < list.len() && holds(facts, #[trigger] list[i]) == Ok::<bool, Fault>(true);
        assert(holds(facts, list[i]) != Ok::<bool, Fault>(false));
    } else {
        assert forall|j: int| 0 <= j < list.len() implies holds(facts, #[trigger] list[j]) == Ok::<bool, Fault>(false) by {
            lemma_decided(holds(facts, list[j]));
        }
    }
    lemma_decided(all_hold(facts, list, 0, bound));
    lemma_decided(any_holds(facts, list, 0, bound));
}

/// The trimmed arguments hold where the arguments do.
proof fn lemma_trimmed_arguments(facts: Facts, args: Seq<Seq<char>>)
    requires
        all_known(facts, args),
    ensures
        all_known(facts, all_trimmed(args)),
        every_holds(facts, all_trimmed(args)) == every_holds(facts, args),
        some_holds(facts, all_trimmed(args)) == some_holds(facts, args),
{
    let list = all_trimmed(args);
    assert forall|i: int| 0 <= i < args.len() implies holds(facts, #[trigger] list[i]) == holds(facts, args[i]) by {
        lemma_holds_trimmed(facts, args[i]);
    }
    assert forall|i: int| 0 <= i < args.len() implies holds(facts, #[trigger] args[i]) == holds(facts, list[i]) by {
        lemma_holds_trimmed(facts, args[i]);
    }
}

/// What a written call of `all` comes to.
proof fn lemma_written_all(facts: Facts, args: Seq<Seq<char>>)
    requires
        are_arguments(args),
    ensures
        all_shorter(all_trimmed(args), written_call("all"@, args).len()),
        holds(facts, written_call("all"@, args)) == all_hold(
            facts,
            all_trimmed(args),
            0,
            written_call("all"@, args).len(),
        ),
{
    let text = written_call("all"@, args);
    lemma_arguments(args);
    assert("all"@.len() == 3 && "all"@[0] == 'a') by {
        reveal_strlit("all");
    }
    lemma_call("all"@, args);
    lemma_shorter(text, "all"@);
}

/// What a written call of `any` comes to.
proof fn lemma_written_any(facts: Facts, args: Seq<Seq<char>>)
    requires
        are_arguments(args),
    ensures
        all_shorter(all_trimmed(args), written_call("any"@, args).len()),
        holds(facts, written_call("any"@, args)) == any_holds(
            facts,
            all_trimmed(args),
            0,
            written_call("any"@, args).len(),
        ),
{
    let text = written_call("any"@, args);
    lemma_arguments(args);
    assert("any"@.len() == 3 && "any"@[0] == 'a' && "any"@[1] == 'n') by {
        reveal_strlit("any");
    }
    lemma_call("any"@, args);
    lemma_shorter(text, "any"@);
    assert(call_arguments(text, "all"@) is None) by {
        reveal_strlit("all");
        assert(text[1] == 'n');
        assert(text.subrange(0, 3)[1] == 'n');
        assert("all"@[1] == 'l');
    }
}

/// A written `all(a, b)` holds just where all of its arguments do, and so for any
/// number of arguments, of each of which it is known whether it holds.
pub proof fn law_written_all(facts: Facts, args: Seq<Seq<char>>)
    requires
        are_arguments(args),
        all_known(facts, args),
    ensures
        holds(facts, written_call("all"@, args)) == Ok::<bool, Fault>(every_holds(facts, args)),
{
    lemma_written_all(facts, args);
    lemma_trimmed_arguments(facts, args);
    lemma_known(facts, all_trimmed(args), written_call("all"@, args).len());
}

/// A written `any(a, b)` holds just where one of its arguments does, and so for
/// any number of arguments, of each of which it is known whether it holds.
pub proof fn law_written_any(facts: Facts, args: Seq<Seq<char>>)
    requires
        are_arguments(args),
        all_known(facts, args),
    ensures
        holds(facts, written_call("any"@, args)) == Ok::<bool, Fault>(some_holds(facts, args)),
{
    lemma_written_any(facts, args);
    lemma_trimmed_arguments(facts, args);
    lemma_known(facts, all_trimmed(args), written_call("any"@, args).len());
}

/// A written `not(a)` holds just where its argument does not; with no argument,
/// or more than one, it is invalid.
pub proof fn law_written_not(facts: Facts, args: Seq<Seq<char>>)
    requires
        are_arguments(args),
    ensures
        args.len() == 1 ==> (holds(facts, args[0]) matches Ok(value) ==> holds(facts, written_call("not"@, args)) == Ok::<
            bool,
            Fault,
        >(!value)),
        args.len() != 1 ==> (holds(facts, written_call("not"@, args)) matches Err(e) && e.kind == ErrorKind::InvalidData),
{
    reveal_strlit("all");
    reveal_strlit("any");
    reveal_strlit("not");
    let text = written_call("not"@, args);
    lemma_arguments(args);
    lemma_call("not"@, args);
    assert(call_arguments(text, "all"@) is None && call_arguments(text, "any"@) is None) by {
        assert(text[0] == 'n');
        assert(text.subrange(0, 3)[0] == 'n');
        assert("all"@[0] == 'a' && "any"@[0] == 'a');
    }
    if args.len() == 1 {
        lemma_holds_trimmed(facts, args[0]);
        assert(all_trimmed(args)[0] == trimmed(args[0]));
    }
}

fn fact_number(key: &str) -> (r: Option<u32>)
    ensures
        r == fact_key(key@),
{
    if same(key, "target_family") {
        Some(build_config_key::TARGET_FAMILY)
    } else if same(key, "target_os") {
        Some(build_config_key::TARGET_OS)
    } else if same(key, "target_env") {
        Some(build_config_key::TARGET_ENV)
    } else if same(key, "target_arch") {
        Some(build_config_key::TARGET_ARCH)
    } else if same(key, "target_vendor") {
        Some(build_config_key::TARGET_VENDOR)
    } else if same(key, "target_endian") {
        Some(build_config_key::TARGET_ENDIAN)
    } else {
        None
    }
}

fn plain_directive(context: &PluginContext, directive: &str) -> (r: bool)
    ensures
        r == plain_holds(context.target_config.deep_view(), directive@),
{
    if same(directive, "unix") {
        return context.config_is(build_config_key::TARGET_FAMILY, "unix");
    }
    if same(directive, "windows") {
        return context.config_is(build_config_key::TARGET_FAMILY, "windows");
    }
    match split_once(directive, '=') {
        None => false,
        Some((key, value)) => match fact_number(trim(key.as_str()).as_str()) {
            None => false,
            Some(number) => {
                let value = trim_matches(trim(value.as_str()).as_str(), '"');
                context.config_is(number, value.as_str())
            },
        },
    }
}

/// Whether `directive` holds on the machine that `context` describes.
pub fn resolve_cfg_directive(context: &PluginContext, directive: &str) -> (r: Result<bool, Error>)
    ensures
        outcome(r) == holds(context.target_config.deep_view(), directive@),
    decreases directive@.len(),
{
    let ghost facts = context.target_config.deep_view();
    let ghost bound = directive@.len();
    let d = trim(directive);
    proof {
        lemma_shorter(directive@, "all"@);
        lemma_shorter(directive@, "any"@);
        lemma_shorter(directive@, "not"@);
    }
    if let Some(args) = strip_cfg_call(d.as_str(), "all") {
        let list = split_cfg_args(args.as_str())?;
        let mut i: usize = 0;
        while i < list.len()
            invariant
                i <= list.len(),
                bound == directive@.len(),
                facts == context.target_config.deep_view(),
                all_shorter(list.deep_view(), bound),
                holds(facts, directive@) == all_hold(facts, list.deep_view(), i as int, bound),
            decreases list.len() - i,
        {
            assert(list.deep_view()[i as int] == list@[i as int]@);
            if !resolve_cfg_directive(context, list[i].as_str())? {
                return Ok(false);
            }
            i = i + 1;
        }
        return Ok(true);
    }
    if let Some(args) = strip_cfg_call(d.as_str(), "any") {
        let list = split_cfg_args(args.as_str())?;
        let mut i: usize = 0;
        while i < list.len()
            invariant
                i <= list.len(),
                bound == directive@.len(),
                facts == context.target_config.deep_view(),
                all_shorter(list.deep_view(), bound),
                holds(facts, directive@) == any_holds(facts, list.deep_view(), i as int, bound),
            decreases list.len() - i,
        {
            assert(list.deep_view()[i as int] == list@[i as int]@);
            if resolve_cfg_directive(context, list[i].as_str())? {
                return Ok(true);
            }
            i = i + 1;
        }
        return Ok(false);
    }
    if let Some(args) = strip_cfg_call(d.as_str(), "not") {
        let list = split_cfg_args(args.as_str())?;
        if list.len() != 1 {
            return Err(error(ErrorKind::InvalidData, cat2("not() expects one cfg argument: ", d.as_str())));
        }
        assert(list.deep_view()[0] == list@[0]@);
        let value = resolve_cfg_directive(context, list[0].as_str())?;
        return Ok(!value);
    }
    Ok(plain_directive(context, d.as_str()))
}

} // verus!
