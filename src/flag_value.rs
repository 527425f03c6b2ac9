use vstd::prelude::*;

use crate::numeric::{
    chars_of, float_literal, int_text, is_float_literal, long_literal, long_text, nat_text,
    parse_long, parse_ulong, ulong_literal, ulong_text,
};

verus! {

/// What can go wrong while declaring flags or applying a command line.
#[derive(Clone, Copy, Debug, PartialEq, Eq, Structural)]
pub enum FlagError {
    /// The registry already holds as many flags as it can.
    CapacityExceeded,
    /// A value token is not a literal of the flag's kind.
    ParseFailure,
    /// A flag that takes a value stands last, with no value token after it.
    StarvedValue,
}

/// The live value of a flag. Its kind never changes; only its payload does.
///
/// `Float` and `Double` hold the literal text of the number, which is always
/// a valid floating-point literal (see `value_ok`): the number itself is read
/// from that text by whoever needs it as a float.
#[derive(Clone, Debug)]
pub enum FlagValue {
    Bool(bool),
    Long(i64),
    ULong(u64),
    Float(String),
    Double(String),
    String(String),
}

/// The mathematical content of a `FlagValue`.
pub enum ValueModel {
    Bool(bool),
    Long(i64),
    ULong(u64),
    Float(Seq<char>),
    Double(Seq<char>),
    Text(Seq<char>),
}

impl View for FlagValue {
    type V = ValueModel;

    open spec fn view(&self) -> ValueModel {
        match self {
            FlagValue::Bool(b) => ValueModel::Bool(*b),
            FlagValue::Long(v) => ValueModel::Long(*v),
            FlagValue::ULong(v) => ValueModel::ULong(*v),
            FlagValue::Float(s) => ValueModel::Float(s@),
            FlagValue::Double(s) => ValueModel::Double(s@),
            FlagValue::String(s) => ValueModel::Text(s@),
        }
    }
}

/// Whether `v` is well formed: a float kind holds a floating-point literal.
pub open spec fn value_ok(v: ValueModel) -> bool {
    match v {
        ValueModel::Float(s) => float_literal(s),
        ValueModel::Double(s) => float_literal(s),
        _ => true,
    }
}

/// Whether `a` and `b` are of the same kind.
pub open spec fn same_kind(a: ValueModel, b: ValueModel) -> bool {
    match (a, b) {
        (ValueModel::Bool(_), ValueModel::Bool(_)) => true,
        (ValueModel::Long(_), ValueModel::Long(_)) => true,
        (ValueModel::ULong(_), ValueModel::ULong(_)) => true,
        (ValueModel::Float(_), ValueModel::Float(_)) => true,
        (ValueModel::Double(_), ValueModel::Double(_)) => true,
        (ValueModel::Text(_), ValueModel::Text(_)) => true,
        _ => false,
    }
}

/// The text that a string flag stores for the token `t`: when `t` starts
/// with `"`, its first and its last character are dropped (the last one
/// whatever it is); otherwise `t` itself.
pub open spec fn unquoted(t: Seq<char>) -> Seq<char> {
    if t.len() > 0 && t[0] == '"' {
        if t.len() >= 2 {
            t.subrange(1, t.len() - 1)
        } else {
            Seq::empty()
        }
    } else {
        t
    }
}

/// The value that `v` becomes when the token `t` is applied to it, or `None`
/// when `t` is not a literal of `v`'s kind. A boolean is toggled instead.
pub open spec fn parsed(v: ValueModel, t: Seq<char>) -> Option<ValueModel> {
    match v {
        ValueModel::Bool(b) => Some(ValueModel::Bool(!b)),
        ValueModel::Long(_) => match long_literal(t) {
            Some(x) => Some(ValueModel::Long(x)),
            None => None,
        },
        ValueModel::ULong(_) => match ulong_literal(t) {
            Some(x) => Some(ValueModel::ULong(x)),
            None => None,
        },
        ValueModel::Float(_) => if float_literal(t) {
            Some(ValueModel::Float(t))
        } else {
            None
        },
        ValueModel::Double(_) => if float_literal(t) {
            Some(ValueModel::Double(t))
        } else {
            None
        },
        ValueModel::Text(_) => Some(ValueModel::Text(unquoted(t))),
    }
}

/// `v` with its boolean flipped; any other kind unchanged.
pub open spec fn toggled(v: ValueModel) -> ValueModel {
    match v {
        ValueModel::Bool(b) => ValueModel::Bool(!b),
        _ => v,
    }
}

/// The text of `v`: `true` or `false`, a decimal integer, the literal of a
/// float kind, or a string between double quotes.
pub open spec fn rendered(v: ValueModel) -> Seq<char> {
    match v {
        ValueModel::Bool(b) => if b {
            seq!['t', 'r', 'u', 'e']
        } else {
            seq!['f', 'a', 'l', 's', 'e']
        },
        ValueModel::Long(x) => int_text(x as int),
        ValueModel::ULong(x) => nat_text(x as nat),
        ValueModel::Float(s) => s,
        ValueModel::Double(s) => s,
        ValueModel::Text(s) => seq!['"'] + s + seq!['"'],
    }
}

impl FlagValue {
    /// Whether this value is well formed.
    pub open spec fn wf(&self) -> bool {
        value_ok(self@)
    }

    /// Whether this is a boolean, which is toggled rather than parsed.
    pub fn is_bool(&self) -> (r: bool)
        ensures
            r == (self@ is Bool),
    {
        match self {
            FlagValue::Bool(_) => true,
            _ => false,
        }
    }

    /// Flips a boolean value.
    pub fn toggle(&mut self)
        requires
            old(self)@ is Bool,
        ensures
            final(self)@ == toggled(old(self)@),
    {
        if let FlagValue::Bool(b) = self {
            *b = !*b;
        }
    }

    /// Replaces the payload by what `token` denotes in this value's kind. On
    /// failure the value is left as it was.
    pub fn parse_from(&mut self, token: &str) -> (r: Result<(), FlagError>)
        requires
            !(old(self)@ is Bool),
        ensures
            match parsed(old(self)@, token@) {
                Some(v) => r is Ok && final(self)@ == v,
                None => r == Err::<(), FlagError>(FlagError::ParseFailure) && final(self)@ == old(
                    self,
                )@,
            },
    {
        match self {
            FlagValue::Bool(_) => Ok(()),
            FlagValue::Long(x) => {
                let cs = chars_of(token);
                match parse_long(&cs) {
                    Some(v) => {
                        *x = v;
                        Ok(())
                    },
                    None => Err(FlagError::ParseFailure),
                }
            },
            FlagValue::ULong(x) => {
                let cs = chars_of(token);
                match parse_ulong(&cs) {
                    Some(v) => {
                        *x = v;
                        Ok(())
                    },
                    None => Err(FlagError::ParseFailure),
                }
            },
            FlagValue::Float(s) => {
                let cs = chars_of(token);
                if is_float_literal(&cs) {
                    *s = String::from_str(token);
                    Ok(())
                } else {
                    Err(FlagError::ParseFailure)
                }
            },
            FlagValue::Double(s) => {
                let cs = chars_of(token);
                if is_float_literal(&cs) {
                    *s = String::from_str(token);
                    Ok(())
                } else {
                    Err(FlagError::ParseFailure)
                }
            },
            FlagValue::String(s) => {
                *s = unquote(token);
                Ok(())
            },
        }
    }

    /// The value as text (see `rendered`).
    pub fn to_string(&self) -> (r: String)
        ensures
            r@ == rendered(self@),
    {
        proof {
            reveal_strlit("true");
            reveal_strlit("false");
            reveal_strlit("\"");
        }
        match self {
            FlagValue::Bool(b) => if *b {
                String::from_str("true")
            } else {
                String::from_str("false")
            },
            FlagValue::Long(x) => long_text(*x),
            FlagValue::ULong(x) => ulong_text(*x),
            FlagValue::Float(s) => s.clone(),
            FlagValue::Double(s) => s.clone(),
            FlagValue::String(s) => {
                let r = String::from_str("\"").concat(s.as_str()).concat("\"");
                r
            },
        }
    }
}

/// The text that a string flag stores for `token` (see `unquoted`).
pub fn unquote(token: &str) -> (r: String)
    ensures
        r@ == unquoted(token@),
{
    let n = token.unicode_len();
    if n > 0 && token.get_char(0) == '"' {
        let end: usize = if n >= 2 { n - 1 } else { 1 };
        let r = String::from_str(token.substring_char(1, end));
        proof {
            if n < 2 {
                assert(r@ =~= Seq::<char>::empty());
            }
        }
        r
    } else {
        String::from_str(token)
    }
}

} // verus!
