use vstd::prelude::*;

use crate::flag_value::{parsed, toggled, value_ok, FlagError, FlagValue, ValueModel};
use crate::numeric::float_literal;

verus! {

/// How many flags a registry can hold.
pub const CAPACITY: usize = 256;

/// A declared flag: its canonical name, its short alias and its live value.
pub struct Flag {
    name: String,
    short_alias: String,
    value: FlagValue,
}

/// The mathematical content of a `Flag`.
pub struct FlagView {
    pub name: Seq<char>,
    pub alias: Seq<char>,
    pub value: ValueModel,
}

impl View for Flag {
    type V = FlagView;

    closed spec fn view(&self) -> FlagView {
        FlagView { name: self.name@, alias: self.short_alias@, value: self.value@ }
    }
}

impl Flag {
    /// The canonical name.
    pub fn name(&self) -> (r: &str)
        ensures
            r@ == self@.name,
    {
        self.name.as_str()
    }

    /// The short alias.
    pub fn short_alias(&self) -> (r: &str)
        ensures
            r@ == self@.alias,
    {
        self.short_alias.as_str()
    }

    /// The current value.
    pub fn value(&self) -> (r: &FlagValue)
        ensures
            r@ == self@.value,
    {
        &self.value
    }
}

/// A reference to a declared flag: its position in the registry, which never
/// changes once it is given out.
#[derive(Clone, Copy, Debug, PartialEq, Eq, Structural)]
pub struct FlagHandle {
    pub index: usize,
}

/// The mathematical content of a `Registry`.
pub struct RegistryView {
    pub flags: Seq<FlagView>,
    pub ignore_prefix_enabled: bool,
}

/// An ordered, bounded collection of flags, and the switch that lets a `/`
/// after the dashes of a token mark an occurrence to be ignored.
pub struct Registry {
    flags: Vec<Flag>,
    ignore_prefix_enabled: bool,
}

impl View for Registry {
    type V = RegistryView;

    closed spec fn view(&self) -> RegistryView {
        RegistryView {
            flags: self.flags@.map_values(|f: Flag| f@),
            ignore_prefix_enabled: self.ignore_prefix_enabled,
        }
    }
}

/// Whether every value in `flags` is well formed.
pub open spec fn values_ok(flags: Seq<FlagView>) -> bool {
    forall|i: int| 0 <= i < flags.len() ==> value_ok(#[trigger] flags[i].value)
}

/// The short alias that a flag gets when none is given: the first character
/// of its name.
pub open spec fn default_alias(name: Seq<char>) -> Seq<char> {
    if name.len() > 0 {
        name.subrange(0, 1)
    } else {
        Seq::empty()
    }
}

/// `t` without its leading `-` characters.
pub open spec fn strip_dashes(t: Seq<char>) -> Seq<char>
    decreases t.len(),
{
    if t.len() > 0 && t[0] == '-' {
        strip_dashes(t.drop_first())
    } else {
        t
    }
}

/// What the token `t` names: `None` when nothing is left of it after its
/// leading dashes; otherwise whether a `/` follows the dashes, and the name
/// after that `/`.
pub open spec fn target(t: Seq<char>) -> Option<(bool, Seq<char>)> {
    let s = strip_dashes(t);
    if s.len() == 0 {
        None
    } else if s[0] == '/' {
        Some((true, s.drop_first()))
    } else {
        Some((false, s))
    }
}

/// Whether the flag `f` is called `name`, by its canonical name or its alias.
pub open spec fn answers_to(f: FlagView, name: Seq<char>) -> bool {
    f.name == name || f.alias == name
}

/// The position of the first flag from `from` on that answers to `name`.
pub open spec fn first_match_from(flags: Seq<FlagView>, name: Seq<char>, from: int) -> Option<int>
    decreases flags.len() - from,
{
    if from < 0 || from >= flags.len() {
        None
    } else if answers_to(flags[from], name) {
        Some(from)
    } else {
        first_match_from(flags, name, from + 1)
    }
}

/// The position of the first flag that answers to `name`.
pub open spec fn first_match(flags: Seq<FlagView>, name: Seq<char>) -> Option<int> {
    first_match_from(flags, name, 0)
}

/// `flags` with the value at `k` replaced by `v`.
pub open spec fn with_value(flags: Seq<FlagView>, k: int, v: ValueModel) -> Seq<FlagView> {
    flags.update(k, FlagView { value: v, ..flags[k] })
}

/// Where applying a command line ends: the flags, and the error that stopped
/// it, if one did.
pub struct ParseOutcome {
    pub flags: Seq<FlagView>,
    pub error: Option<FlagError>,
}

/// The result of applying `tokens`, from position `i` on, to `flags`, with
/// ignore marks honoured when `ignore_enabled` holds.
pub open spec fn run(
    flags: Seq<FlagView>,
    ignore_enabled: bool,
    tokens: Seq<Seq<char>>,
    i: int,
) -> ParseOutcome
    decreases tokens.len() - i,
{
    if i < 0 || i >= tokens.len() {
        ParseOutcome { flags, error: None }
    } else {
        match target(tokens[i]) {
            None => run(flags, ignore_enabled, tokens, i + 1),
            Some((marked, name)) => match first_match(flags, name) {
                None => run(flags, ignore_enabled, tokens, i + 1),
                Some(k) => {
                    let ignore = ignore_enabled && marked;
                    if flags[k].value is Bool {
                        let next = if ignore {
                            flags
                        } else {
                            with_value(flags, k, toggled(flags[k].value))
                        };
                        run(next, ignore_enabled, tokens, i + 1)
                    } else if i + 1 >= tokens.len() {
                        ParseOutcome { flags, error: Some(FlagError::StarvedValue) }
                    } else if ignore {
                        run(flags, ignore_enabled, tokens, i + 2)
                    } else {
                        match parsed(flags[k].value, tokens[i + 1]) {
                            None => ParseOutcome { flags, error: Some(FlagError::ParseFailure) },
                            Some(v) => run(with_value(flags, k, v), ignore_enabled, tokens, i + 2),
                        }
                    }
                },
            },
        }
    }
}

/// Whether declaring a flag named `name`, with alias `alias` and value
/// `value`, took the registry from `before` to `after` and returned `r`: the
/// flag is appended and its handle returned while there is room, and a full
/// registry is left as it was.
pub open spec fn declared(
    before: RegistryView,
    after: RegistryView,
    name: Seq<char>,
    alias: Seq<char>,
    value: ValueModel,
    r: Result<FlagHandle, FlagError>,
) -> bool {
    if before.flags.len() < CAPACITY {
        &&& r == Ok::<FlagHandle, FlagError>(FlagHandle { index: before.flags.len() as usize })
        &&& after == (RegistryView {
            flags: before.flags.push(FlagView { name, alias, value }),
            ..before
        })
    } else {
        &&& r == Err::<FlagHandle, FlagError>(FlagError::CapacityExceeded)
        &&& after == before
    }
}

/// The result that `parse_args` returns for a stopping error `e`.
pub open spec fn result_of(e: Option<FlagError>) -> Result<(), FlagError> {
    match e {
        Some(x) => Err(x),
        None => Ok(()),
    }
}

impl Registry {
    /// Whether the registry is within its capacity and its values are well
    /// formed.
    pub open spec fn wf(&self) -> bool {
        self@.flags.len() <= CAPACITY && values_ok(self@.flags)
    }

    /// An empty registry, with ignore marks honoured.
    pub fn new() -> (r: Registry)
        ensures
            r.wf(),
            r@.flags == Seq::<FlagView>::empty(),
            r@.ignore_prefix_enabled,
    {
        let r = Registry { flags: Vec::new(), ignore_prefix_enabled: true };
        assert(r@.flags =~= Seq::<FlagView>::empty());
        r
    }

    /// How many flags are declared.
    pub fn len(&self) -> (r: usize)
        ensures
            r == self@.flags.len(),
    {
        self.flags.len()
    }

    /// Whether ignore marks are honoured.
    pub fn ignore_mode(&self) -> (r: bool)
        ensures
            r == self@.ignore_prefix_enabled,
    {
        self.ignore_prefix_enabled
    }

    /// Sets whether ignore marks are honoured by later parses.
    pub fn set_ignore_mode(&mut self, enabled: bool)
        ensures
            final(self)@ == (RegistryView { ignore_prefix_enabled: enabled, ..old(self)@ }),
            final(self).wf() == old(self).wf(),
    {
        self.ignore_prefix_enabled = enabled;
        assert(final(self)@.flags =~= old(self)@.flags);
    }

    /// The flag that `handle` refers to.
    pub fn flag(&self, handle: FlagHandle) -> (r: &Flag)
        requires
            handle.index < self@.flags.len(),
        ensures
            r@ == self@.flags[handle.index as int],
    {
        &self.flags[handle.index]
    }

    /// Appends a flag named `name`, answering also to `alias`, holding `value`.
    /// Fails when the registry is full, and then changes nothing.
    pub fn declare(&mut self, name: &str, alias: &str, value: FlagValue) -> (r: Result<
        FlagHandle,
        FlagError,
    >)
        requires
            old(self).wf(),
            value_ok(value@),
        ensures
            final(self).wf(),
            declared(old(self)@, final(self)@, name@, alias@, value@, r),
    {
        if self.flags.len() >= CAPACITY {
            return Err(FlagError::CapacityExceeded);
        }
        let index = self.flags.len();
        self.flags.push(
            Flag { name: String::from_str(name), short_alias: String::from_str(alias), value },
        );
        assert(final(self)@.flags =~= old(self)@.flags.push(
            FlagView { name: name@, alias: alias@, value: value@ },
        ));
        Ok(FlagHandle { index })
    }

    /// The position of the first flag that answers to `name`.
    fn find(&self, name: &String) -> (r: Option<usize>)
        ensures
            match r {
                Some(k) => first_match(self@.flags, name@) == Some(k as int) && k
                    < self@.flags.len(),
                None => first_match(self@.flags, name@) is None,
            },
    {
        let mut j: usize = 0;
        while j < self.flags.len()
            invariant
                j <= self@.flags.len(),
                first_match(self@.flags, name@) == first_match_from(self@.flags, name@, j as int),
            decreases self@.flags.len() - j,
        {
            assert(self@.flags[j as int] == self.flags@[j as int]@);
            if self.flags[j].name == *name || self.flags[j].short_alias == *name {
                return Some(j);
            }
            j = j + 1;
        }
        None
    }
}

/// Reads the token `tok` (see `target`).
fn token_target(tok: &str) -> (r: Option<(bool, String)>)
    ensures
        match r {
            Some((marked, name)) => target(tok@) == Some((marked, name@)),
            None => target(tok@) is None,
        },
{
    let n = tok.unicode_len();
    let mut k: usize = 0;
    assert(tok@.subrange(0, n as int) =~= tok@);
    while k < n && tok.get_char(k) == '-'
        invariant
            n == tok@.len(),
            k <= n,
            strip_dashes(tok@) == strip_dashes(tok@.subrange(k as int, n as int)),
        decreases n - k,
    {
        assert(tok@.subrange(k as int, n as int).drop_first() =~= tok@.subrange(
            k + 1,
            n as int,
        ));
        k = k + 1;
    }
    let ghost rest = tok@.subrange(k as int, n as int);
    if k == n {
        assert(rest.len() == 0);
        return None;
    }
    assert(rest[0] == tok@[k as int]);
    assert(strip_dashes(rest) == rest);
    if tok.get_char(k) == '/' {
        let name = String::from_str(tok.substring_char(k + 1, n));
        assert(name@ =~= rest.drop_first());
        Some((true, name))
    } else {
        let name = String::from_str(tok.substring_char(k, n));
        Some((false, name))
    }
}

/// Applies the command line `tokens` to the flags of `registry`, left to
/// right (see `run`): a token names a flag after its leading dashes and an
/// optional ignore mark; a boolean flag is toggled, any other flag takes the
/// next token as its value; a token that names no flag is passed over. An
/// occurrence marked with `/` changes nothing when ignore marks are honoured,
/// but still takes its value token. Stops at the first error, keeping what
/// was applied before it.
pub fn parse_args(registry: &mut Registry, tokens: &Vec<String>) -> (r: Result<(), FlagError>)
    requires
        old(registry).wf(),
    ensures
        final(registry).wf(),
        final(registry)@.ignore_prefix_enabled == old(registry)@.ignore_prefix_enabled,
        final(registry)@.flags == run(
            old(registry)@.flags,
            old(registry)@.ignore_prefix_enabled,
            tokens.deep_view(),
            0,
        ).flags,
        r == result_of(
            run(
                old(registry)@.flags,
                old(registry)@.ignore_prefix_enabled,
                tokens.deep_view(),
                0,
            ).error,
        ),
{
    let ghost toks = tokens.deep_view();
    let ghost start = old(registry)@.flags;
    let enabled = registry.ignore_prefix_enabled;
    let n = tokens.len();
    let mut i: usize = 0;
    while i < n
        invariant
            n == toks.len(),
            toks == tokens.deep_view(),
            start == old(registry)@.flags,
            i <= n,
            registry.wf(),
            registry@.ignore_prefix_enabled == enabled,
            enabled == old(registry)@.ignore_prefix_enabled,
            run(registry@.flags, enabled, toks, i as int) == run(start, enabled, toks, 0),
        decreases n - i,
    {
        let ghost cur = registry@.flags;
        assert(toks[i as int] == tokens@[i as int]@);
        match token_target(tokens[i].as_str()) {
            None => {
                i = i + 1;
            },
            Some((marked, name)) => {
                match registry.find(&name) {
                    None => {
                        i = i + 1;
                    },
                    Some(k) => {
                        let ignore = enabled && marked;
                        assert(cur[k as int] == registry.flags@[k as int]@);
                        if registry.flags[k].value.is_bool() {
                            if !ignore {
                                registry.flags[k].value.toggle();
                                assert(registry@.flags =~= with_value(
                                    cur,
                                    k as int,
                                    toggled(cur[k as int].value),
                                ));
                            }
                            i = i + 1;
                        } else if i + 1 >= n {
                            assert(run(cur, enabled, toks, i as int) == ParseOutcome {
                                flags: cur,
                                error: Some(FlagError::StarvedValue),
                            });
                            return Err(FlagError::StarvedValue);
                        } else if ignore {
                            i = i + 2;
                        } else {
                            assert(toks[i + 1] == tokens@[i + 1]@);
                            match registry.flags[k].value.parse_from(tokens[i + 1].as_str()) {
                                Ok(_) => {
                                    let ghost v = parsed(cur[k as int].value, toks[i + 1]).unwrap();
                                    assert(registry@.flags =~= with_value(cur, k as int, v));
                                    i = i + 2;
                                },
                                Err(e) => {
                                    assert(registry@.flags =~= cur);
                                    return Err(e);
                                },
                            }
                        }
                    },
                }
            },
        }
    }
    Ok(())
}

/// The first character of `name`, or nothing when it is empty.
fn first_char_of(name: &str) -> (r: &str)
    ensures
        r@ == default_alias(name@),
{
    let n = name.unicode_len();
    let r = if n > 0 {
        name.substring_char(0, 1)
    } else {
        name.substring_char(0, 0)
    };
    proof {
        if n == 0 {
            assert(r@ =~= Seq::<char>::empty());
        }
    }
    r
}

/// Declares a boolean flag, which each occurrence toggles, answering also to the first
/// character of its name.
pub fn flag_bool(registry: &mut Registry, name: &str, default_value: bool) -> (r: Result<FlagHandle, FlagError>)
    requires
            old(registry).wf(),
    ensures
        final(registry).wf(),
        declared(old(registry)@, final(registry)@, name@, default_alias(name@), ValueModel::Bool(default_value), r),
{
    registry.declare(name, first_char_of(name), FlagValue::Bool(default_value))
}

/// Declares a boolean flag, which each occurrence toggles, answering also to `alias`.
pub fn flag_bool_short(registry: &mut Registry, name: &str, alias: &str, default_value: bool) -> (r: Result<FlagHandle, FlagError>)
    requires
            old(registry).wf(),
    ensures
        final(registry).wf(),
        declared(old(registry)@, final(registry)@, name@, alias@, ValueModel::Bool(default_value), r),
{
    registry.declare(name, alias, FlagValue::Bool(default_value))
}

/// Declares a signed 64-bit integer flag, answering also to the first
/// character of its name.
pub fn flag_long(registry: &mut Registry, name: &str, default_value: i64) -> (r: Result<FlagHandle, FlagError>)
    requires
            old(registry).wf(),
    ensures
        final(registry).wf(),
        declared(old(registry)@, final(registry)@, name@, default_alias(name@), ValueModel::Long(default_value), r),
{
    registry.declare(name, first_char_of(name), FlagValue::Long(default_value))
}

/// Declares a signed 64-bit integer flag, answering also to `alias`.
pub fn flag_long_short(registry: &mut Registry, name: &str, alias: &str, default_value: i64) -> (r: Result<FlagHandle, FlagError>)
    requires
            old(registry).wf(),
    ensures
        final(registry).wf(),
        declared(old(registry)@, final(registry)@, name@, alias@, ValueModel::Long(default_value), r),
{
    registry.declare(name, alias, FlagValue::Long(default_value))
}

/// Declares a unsigned 64-bit integer flag, answering also to the first
/// character of its name.
pub fn flag_ulong(registry: &mut Registry, name: &str, default_value: u64) -> (r: Result<FlagHandle, FlagError>)
    requires
            old(registry).wf(),
    ensures
        final(registry).wf(),
        declared(old(registry)@, final(registry)@, name@, default_alias(name@), ValueModel::ULong(default_value), r),
{
    registry.declare(name, first_char_of(name), FlagValue::ULong(default_value))
}

/// Declares a unsigned 64-bit integer flag, answering also to `alias`.
pub fn flag_ulong_short(registry: &mut Registry, name: &str, alias: &str, default_value: u64) -> (r: Result<FlagHandle, FlagError>)
    requires
            old(registry).wf(),
    ensures
        final(registry).wf(),
        declared(old(registry)@, final(registry)@, name@, alias@, ValueModel::ULong(default_value), r),
{
    registry.declare(name, alias, FlagValue::ULong(default_value))
}

/// Declares a single-precision float flag, its default given as a float literal, answering also to the first
/// character of its name.
pub fn flag_float(registry: &mut Registry, name: &str, default_value: &str) -> (r: Result<FlagHandle, FlagError>)
    requires
            old(registry).wf(),
            float_literal(default_value@),
    ensures
        final(registry).wf(),
        declared(old(registry)@, final(registry)@, name@, default_alias(name@), ValueModel::Float(default_value@), r),
{
    registry.declare(name, first_char_of(name), FlagValue::Float(String::from_str(default_value)))
}

/// Declares a single-precision float flag, its default given as a float literal, answering also to `alias`.
pub fn flag_float_short(registry: &mut Registry, name: &str, alias: &str, default_value: &str) -> (r: Result<FlagHandle, FlagError>)
    requires
            old(registry).wf(),
            float_literal(default_value@),
    ensures
        final(registry).wf(),
        declared(old(registry)@, final(registry)@, name@, alias@, ValueModel::Float(default_value@), r),
{
    registry.declare(name, alias, FlagValue::Float(String::from_str(default_value)))
}

/// Declares a double-precision float flag, its default given as a float literal, answering also to the first
/// character of its name.
pub fn flag_double(registry: &mut Registry, name: &str, default_value: &str) -> (r: Result<FlagHandle, FlagError>)
    requires
            old(registry).wf(),
            float_literal(default_value@),
    ensures
        final(registry).wf(),
        declared(old(registry)@, final(registry)@, name@, default_alias(name@), ValueModel::Double(default_value@), r),
{
    registry.declare(name, first_char_of(name), FlagValue::Double(String::from_str(default_value)))
}

/// Declares a double-precision float flag, its default given as a float literal, answering also to `alias`.
pub fn flag_double_short(registry: &mut Registry, name: &str, alias: &str, default_value: &str) -> (r: Result<FlagHandle, FlagError>)
    requires
            old(registry).wf(),
            float_literal(default_value@),
    ensures
        final(registry).wf(),
        declared(old(registry)@, final(registry)@, name@, alias@, ValueModel::Double(default_value@), r),
{
    registry.declare(name, alias, FlagValue::Double(String::from_str(default_value)))
}

/// Declares a string flag, answering also to the first
/// character of its name.
pub fn flag_string(registry: &mut Registry, name: &str, default_value: &str) -> (r: Result<FlagHandle, FlagError>)
    requires
            old(registry).wf(),
    ensures
        final(registry).wf(),
        declared(old(registry)@, final(registry)@, name@, default_alias(name@), ValueModel::Text(default_value@), r),
{
    registry.declare(name, first_char_of(name), FlagValue::String(String::from_str(default_value)))
}

/// Declares a string flag, answering also to `alias`.
pub fn flag_string_short(registry: &mut Registry, name: &str, alias: &str, default_value: &str) -> (r: Result<FlagHandle, FlagError>)
    requires
            old(registry).wf(),
    ensures
        final(registry).wf(),
        declared(old(registry)@, final(registry)@, name@, alias@, ValueModel::Text(default_value@), r),
{
    registry.declare(name, alias, FlagValue::String(String::from_str(default_value)))
}

} // verus!
