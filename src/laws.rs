use vstd::prelude::*;

use crate::flag_value::{parsed, same_kind, toggled, ValueModel};
use crate::registry::{
    answers_to, first_match, first_match_from, run, strip_dashes, target, with_value, FlagView,
    ParseOutcome,
};

verus! {

proof fn lemma_first_match_from(flags: Seq<FlagView>, name: Seq<char>, from: int)
    requires
        0 <= from,
    ensures
        match first_match_from(flags, name, from) {
            Some(k) => from <= k < flags.len() && answers_to(flags[k], name) && forall|m: int|
                from <= m < k ==> !answers_to(#[trigger] flags[m], name),
            None => forall|m: int| from <= m < flags.len() ==> !answers_to(#[trigger] flags[m], name),
        },
    decreases flags.len() - from,
{
    if from < flags.len() && !answers_to(flags[from], name) {
        lemma_first_match_from(flags, name, from + 1);
    }
}

proof fn lemma_first_match(flags: Seq<FlagView>, name: Seq<char>)
    ensures
        match first_match(flags, name) {
            Some(k) => 0 <= k < flags.len() && answers_to(flags[k], name) && forall|m: int|
                0 <= m < k ==> !answers_to(#[trigger] flags[m], name),
            None => forall|m: int| 0 <= m < flags.len() ==> !answers_to(#[trigger] flags[m], name),
        },
{
    lemma_first_match_from(flags, name, 0);
}

/// Whether `a` and `b` hold the same names and aliases, position by position.
spec fn same_names(a: Seq<FlagView>, b: Seq<FlagView>) -> bool {
    &&& a.len() == b.len()
    &&& forall|m: int|
        0 <= m < a.len() ==> (#[trigger] a[m]).name == b[m].name && a[m].alias == b[m].alias
}

proof fn lemma_first_match_names(a: Seq<FlagView>, b: Seq<FlagView>, name: Seq<char>, from: int)
    requires
        same_names(a, b),
    ensures
        first_match_from(a, name, from) == first_match_from(b, name, from),
    decreases a.len() - from,
{
    if 0 <= from < a.len() {
        lemma_first_match_names(a, b, name, from + 1);
    }
}

proof fn lemma_with_value_names(flags: Seq<FlagView>, k: int, v: ValueModel)
    requires
        0 <= k < flags.len(),
    ensures
        same_names(flags, with_value(flags, k, v)),
{
}

/// Running from position `i` of `a` and from position `j` of `b` gives the
/// same outcome when what follows those positions is the same.
proof fn lemma_run_shift(
    flags: Seq<FlagView>,
    enabled: bool,
    a: Seq<Seq<char>>,
    i: int,
    b: Seq<Seq<char>>,
    j: int,
)
    requires
        0 <= i <= a.len(),
        0 <= j <= b.len(),
        a.subrange(i, a.len() as int) == b.subrange(j, b.len() as int),
    ensures
        run(flags, enabled, a, i) == run(flags, enabled, b, j),
    decreases a.len() - i,
{
    let sa = a.subrange(i, a.len() as int);
    let sb = b.subrange(j, b.len() as int);
    assert(sa.len() == sb.len());
    if i < a.len() {
        assert(a[i] == sa[0] && b[j] == sb[0]);
        assert(a.subrange(i + 1, a.len() as int) =~= sa.subrange(1, sa.len() as int));
        assert(b.subrange(j + 1, b.len() as int) =~= sb.subrange(1, sb.len() as int));
        if i + 1 < a.len() {
            assert(a[i + 1] == sa[1] && b[j + 1] == sb[1]);
            assert(a.subrange(i + 2, a.len() as int) =~= sa.subrange(2, sa.len() as int));
            assert(b.subrange(j + 2, b.len() as int) =~= sb.subrange(2, sb.len() as int));
        }
        match target(a[i]) {
            None => lemma_run_shift(flags, enabled, a, i + 1, b, j + 1),
            Some((marked, name)) => match first_match(flags, name) {
                None => lemma_run_shift(flags, enabled, a, i + 1, b, j + 1),
                Some(k) => {
                    let ignore = enabled && marked;
                    if flags[k].value is Bool {
                        let next = if ignore {
                            flags
                        } else {
                            with_value(flags, k, toggled(flags[k].value))
                        };
                        lemma_run_shift(next, enabled, a, i + 1, b, j + 1);
                    } else if i + 1 >= a.len() {
                    } else if ignore {
                        lemma_run_shift(flags, enabled, a, i + 2, b, j + 2);
                    } else {
                        match crate::flag_value::parsed(flags[k].value, a[i + 1]) {
                            None => {},
                            Some(v) => lemma_run_shift(
                                with_value(flags, k, v),
                                enabled,
                                a,
                                i + 2,
                                b,
                                j + 2,
                            ),
                        }
                    }
                },
            },
        }
    }
}

/// Whether no token of `tokens` from position `i` on names a name whose first
/// match in `flags` is the flag at `j`.
spec fn never_reaches(flags: Seq<FlagView>, tokens: Seq<Seq<char>>, i: int, j: int) -> bool {
    forall|p: int|
        i <= p < tokens.len() ==> (#[trigger] target(tokens[p]) matches Some((_, name))
            ==> first_match(flags, name) != Some(j))
}

/// A flag that no token reaches keeps its value, and no flag is added or
/// removed.
proof fn lemma_run_frame(flags: Seq<FlagView>, enabled: bool, tokens: Seq<Seq<char>>, i: int, j: int)
    requires
        0 <= i,
        0 <= j < flags.len(),
        never_reaches(flags, tokens, i, j),
    ensures
        run(flags, enabled, tokens, i).flags.len() == flags.len(),
        run(flags, enabled, tokens, i).flags[j] == flags[j],
    decreases tokens.len() - i,
{
    if i < tokens.len() {
        assert(target(tokens[i]) == target(tokens[i]));
        match target(tokens[i]) {
            None => lemma_run_frame(flags, enabled, tokens, i + 1, j),
            Some((marked, name)) => match first_match(flags, name) {
                None => lemma_run_frame(flags, enabled, tokens, i + 1, j),
                Some(k) => {
                    lemma_first_match(flags, name);
                    let ignore = enabled && marked;
                    if flags[k].value is Bool {
                        let next = if ignore {
                            flags
                        } else {
                            with_value(flags, k, toggled(flags[k].value))
                        };
                        lemma_with_value_names(flags, k, toggled(flags[k].value));
                        assert forall|p: int|
                            i + 1 <= p < tokens.len() implies (#[trigger] target(tokens[p]) matches Some(
                            (_, nm)) ==> first_match(next, nm) != Some(j)) by {
                            if let Some((_, nm)) = target(tokens[p]) {
                                lemma_first_match_names(flags, next, nm, 0);
                            }
                        }
                        lemma_run_frame(next, enabled, tokens, i + 1, j);
                    } else if i + 1 >= tokens.len() {
                    } else if ignore {
                        lemma_run_frame(flags, enabled, tokens, i + 2, j);
                    } else {
                        match crate::flag_value::parsed(flags[k].value, tokens[i + 1]) {
                            None => {},
                            Some(v) => {
                                let next = with_value(flags, k, v);
                                lemma_with_value_names(flags, k, v);
                                assert forall|p: int|
                                    i + 2 <= p < tokens.len() implies (#[trigger] target(
                                    tokens[p],
                                ) matches Some((_, nm)) ==> first_match(next, nm) != Some(j)) by {
                                    if let Some((_, nm)) = target(tokens[p]) {
                                        lemma_first_match_names(flags, next, nm, 0);
                                    }
                                }
                                lemma_run_frame(next, enabled, tokens, i + 2, j);
                            },
                        }
                    }
                },
            },
        }
    }
}

/// Parsing an empty command line changes no flag and reports no error.
pub proof fn law_empty_command_line(flags: Seq<FlagView>, enabled: bool)
    ensures
        run(flags, enabled, Seq::empty(), 0) == (ParseOutcome { flags, error: None }),
{
}

/// A flag that no token of the command line names, by its name or its alias,
/// keeps the value it had: a declared default survives parsing.
pub proof fn law_unmentioned_flag_keeps_value(
    flags: Seq<FlagView>,
    enabled: bool,
    tokens: Seq<Seq<char>>,
    j: int,
)
    requires
        0 <= j < flags.len(),
        forall|p: int|
            0 <= p < tokens.len() ==> (#[trigger] target(tokens[p]) matches Some((_, name))
                ==> !answers_to(flags[j], name)),
    ensures
        run(flags, enabled, tokens, 0).flags.len() == flags.len(),
        run(flags, enabled, tokens, 0).flags[j] == flags[j],
{
    assert forall|p: int|
        0 <= p < tokens.len() implies (#[trigger] target(tokens[p]) matches Some((_, nm))
        ==> first_match(flags, nm) != Some(j)) by {
        if let Some((_, nm)) = target(tokens[p]) {
            lemma_first_match(flags, nm);
        }
    }
    lemma_run_frame(flags, enabled, tokens, 0, j);
}

/// Of two flags with the same name and the same alias, the one declared later
/// is never changed by parsing.
pub proof fn law_first_declared_wins(
    flags: Seq<FlagView>,
    enabled: bool,
    tokens: Seq<Seq<char>>,
    i: int,
    j: int,
)
    requires
        0 <= i < j < flags.len(),
        flags[i].name == flags[j].name,
        flags[i].alias == flags[j].alias,
    ensures
        run(flags, enabled, tokens, 0).flags[j] == flags[j],
{
    assert forall|p: int|
        0 <= p < tokens.len() implies (#[trigger] target(tokens[p]) matches Some((_, nm))
        ==> first_match(flags, nm) != Some(j)) by {
        if let Some((_, nm)) = target(tokens[p]) {
            lemma_first_match(flags, nm);
        }
    }
    lemma_run_frame(flags, enabled, tokens, 0, j);
}

/// A token that names a boolean flag, given twice in a row, leaves every flag
/// as it was: the two toggles cancel, or both occurrences are ignored.
pub proof fn law_toggle_twice(flags: Seq<FlagView>, enabled: bool, token: Seq<char>, k: int)
    requires
        target(token) matches Some((_, name)) && first_match(flags, name) == Some(k),
        flags[k].value is Bool,
    ensures
        run(flags, enabled, seq![token, token], 0) == (ParseOutcome { flags, error: None }),
{
    let tokens = seq![token, token];
    let (marked, name) = target(token).unwrap();
    lemma_first_match(flags, name);
    let ignore = enabled && marked;
    assert(tokens[0] == token && tokens[1] == token);
    if !ignore {
        let once = with_value(flags, k, toggled(flags[k].value));
        lemma_with_value_names(flags, k, toggled(flags[k].value));
        lemma_first_match_names(flags, once, name, 0);
        let twice = with_value(once, k, toggled(once[k].value));
        assert(twice =~= flags);
        assert(run(flags, enabled, tokens, 0) == run(once, enabled, tokens, 1));
        assert(run(once, enabled, tokens, 1) == run(twice, enabled, tokens, 2));
    } else {
        assert(run(flags, enabled, tokens, 0) == run(flags, enabled, tokens, 1));
        assert(run(flags, enabled, tokens, 1) == run(flags, enabled, tokens, 2));
    }
}

/// Whether `name` is not empty and starts with neither `-` nor `/`, so that
/// a token made of dashes and `name` names exactly `name`.
pub open spec fn plain(name: Seq<char>) -> bool {
    name.len() > 0 && name[0] != '-' && name[0] != '/'
}

proof fn lemma_target_dashed(dashes: Seq<char>, name: Seq<char>)
    requires
        plain(name),
        forall|i: int| 0 <= i < dashes.len() ==> #[trigger] dashes[i] == '-',
    ensures
        target(dashes + name) == Some((false, name)),
    decreases dashes.len(),
{
    if dashes.len() == 0 {
        assert(dashes + name =~= name);
    } else {
        assert((dashes + name).drop_first() =~= dashes.drop_first() + name);
        lemma_target_dashed(dashes.drop_first(), name);
    }
}

/// When `alias` and `name` both first match the flag at `k`, the command line
/// that starts with `-alias` and the one that starts with `--name`, and go on
/// alike, have the same outcome.
pub proof fn law_alias_equivalence(
    flags: Seq<FlagView>,
    enabled: bool,
    k: int,
    rest: Seq<Seq<char>>,
)
    requires
        0 <= k < flags.len(),
        plain(flags[k].alias),
        plain(flags[k].name),
        first_match(flags, flags[k].alias) == Some(k),
        first_match(flags, flags[k].name) == Some(k),
    ensures
        run(flags, enabled, seq![seq!['-'] + flags[k].alias] + rest, 0) == run(
            flags,
            enabled,
            seq![seq!['-', '-'] + flags[k].name] + rest,
            0,
        ),
{
    let a = seq![seq!['-'] + flags[k].alias] + rest;
    let b = seq![seq!['-', '-'] + flags[k].name] + rest;
    lemma_target_dashed(seq!['-'], flags[k].alias);
    lemma_target_dashed(seq!['-', '-'], flags[k].name);
    assert(a[0] == seq!['-'] + flags[k].alias);
    assert(b[0] == seq!['-', '-'] + flags[k].name);
    assert(a.len() == b.len());
    if a.len() > 1 {
        assert(a[1] == b[1]);
    }
    let next = with_value(flags, k, toggled(flags[k].value));
    assert(a.subrange(1, a.len() as int) =~= b.subrange(1, b.len() as int));
    lemma_run_shift(flags, enabled, a, 1, b, 1);
    lemma_run_shift(next, enabled, a, 1, b, 1);
    if a.len() >= 2 {
        assert(a.subrange(2, a.len() as int) =~= b.subrange(2, b.len() as int));
        lemma_run_shift(flags, enabled, a, 2, b, 2);
        if let Some(v) = crate::flag_value::parsed(flags[k].value, a[1]) {
            lemma_run_shift(with_value(flags, k, v), enabled, a, 2, b, 2);
        }
    }
}

/// With ignore marks honoured, an occurrence `--/name` of a flag that takes a
/// value changes nothing and takes the token after it as its value, so that
/// the command line goes on as if both were absent.
pub proof fn law_ignored_occurrence_skips_value(
    flags: Seq<FlagView>,
    name: Seq<char>,
    value: Seq<char>,
    rest: Seq<Seq<char>>,
    k: int,
)
    requires
        first_match(flags, name) == Some(k),
        !(flags[k].value is Bool),
    ensures
        run(flags, true, seq![seq!['-', '-', '/'] + name, value] + rest, 0) == run(
            flags,
            true,
            rest,
            0,
        ),
{
    let t = seq!['-', '-', '/'] + name;
    let a = seq![t, value] + rest;
    let u = seq!['/'] + name;
    assert(t[0] == '-' && t.drop_first()[0] == '-' && u[0] == '/');
    assert(t.drop_first().drop_first() =~= u);
    assert(strip_dashes(u) == u);
    assert(strip_dashes(t.drop_first()) == strip_dashes(u));
    assert(strip_dashes(t) == u);
    assert((seq!['/'] + name).drop_first() =~= name);
    assert(target(t) == Some((true, name)));
    assert(a[0] == t);
    assert(a.subrange(2, a.len() as int) =~= rest.subrange(0, rest.len() as int));
    lemma_run_shift(flags, true, a, 2, rest, 0);
}

/// A token that names no declared flag changes nothing and takes no value:
/// the command line goes on from the next token.
pub proof fn law_unknown_token_skipped(
    flags: Seq<FlagView>,
    enabled: bool,
    token: Seq<char>,
    rest: Seq<Seq<char>>,
)
    requires
        target(token) matches Some((_, name)) ==> first_match(flags, name) is None,
    ensures
        run(flags, enabled, seq![token] + rest, 0) == run(flags, enabled, rest, 0),
{
    let a = seq![token] + rest;
    assert(a[0] == token);
    assert(a.subrange(1, a.len() as int) =~= rest.subrange(0, rest.len() as int));
    lemma_run_shift(flags, enabled, a, 1, rest, 0);
}

/// Whether `b` holds the flags of `a` with the same names, aliases and kinds.
pub open spec fn same_shape(a: Seq<FlagView>, b: Seq<FlagView>) -> bool {
    &&& a.len() == b.len()
    &&& forall|m: int|
        0 <= m < a.len() ==> (#[trigger] a[m]).name == b[m].name && a[m].alias == b[m].alias
            && same_kind(a[m].value, b[m].value)
}

proof fn lemma_same_shape_trans(a: Seq<FlagView>, b: Seq<FlagView>, c: Seq<FlagView>)
    requires
        same_shape(a, b),
        same_shape(b, c),
    ensures
        same_shape(a, c),
{
    assert forall|m: int| 0 <= m < a.len() implies (#[trigger] a[m]).name == c[m].name
        && a[m].alias == c[m].alias && same_kind(a[m].value, c[m].value) by {
        assert(b[m].name == c[m].name);
    }
}

/// Parsing never adds or removes a flag, and never changes a flag's name,
/// alias or kind: only values change.
pub proof fn law_parse_keeps_shape(
    flags: Seq<FlagView>,
    enabled: bool,
    tokens: Seq<Seq<char>>,
    i: int,
)
    requires
        0 <= i,
    ensures
        same_shape(flags, run(flags, enabled, tokens, i).flags),
    decreases tokens.len() - i,
{
    if i < tokens.len() {
        match target(tokens[i]) {
            None => law_parse_keeps_shape(flags, enabled, tokens, i + 1),
            Some((marked, name)) => match first_match(flags, name) {
                None => law_parse_keeps_shape(flags, enabled, tokens, i + 1),
                Some(k) => {
                    lemma_first_match(flags, name);
                    let ignore = enabled && marked;
                    if flags[k].value is Bool {
                        let next = if ignore {
                            flags
                        } else {
                            with_value(flags, k, toggled(flags[k].value))
                        };
                        law_parse_keeps_shape(next, enabled, tokens, i + 1);
                        assert(same_shape(flags, next));
                        lemma_same_shape_trans(flags, next, run(next, enabled, tokens, i + 1).flags);
                    } else if i + 1 >= tokens.len() {
                        assert(same_shape(flags, flags));
                    } else if ignore {
                        law_parse_keeps_shape(flags, enabled, tokens, i + 2);
                    } else {
                        match parsed(flags[k].value, tokens[i + 1]) {
                            None => assert(same_shape(flags, flags)),
                            Some(v) => {
                                let next = with_value(flags, k, v);
                                law_parse_keeps_shape(next, enabled, tokens, i + 2);
                                assert(same_kind(flags[k].value, v));
                                assert(same_shape(flags, next));
                                lemma_same_shape_trans(
                                    flags,
                                    next,
                                    run(next, enabled, tokens, i + 2).flags,
                                );
                            },
                        }
                    }
                },
            },
        }
    } else {
        assert(same_shape(flags, flags));
    }
}

} // verus!
