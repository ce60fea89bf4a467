//! An assembler and interpreter for the Rings language: programs that work on
//! fixed-capacity circular byte arrays through sixteen instructions.
//!
//! Source bytes are decoded into characters, split into tokens, grouped into
//! statements and assembled into a [`build::Program`], which a
//! [`vm::RingsVM`] then executes. Every value that travels through the
//! pipeline can carry the source position it came from.

use vstd::prelude::*;

pub mod build;
pub mod error;
pub mod instruction;
pub mod io;
pub mod vm;

verus! {

/// The radix a number literal is written in.
#[derive(Clone, Copy, Debug, PartialEq, Eq, Structural)]
pub enum NumberSystem {
    Unknown,
    Decimal,
    Octal,
    Binary,
    Hexadecimal,
}

impl NumberSystem {
    /// The radix as a number; `Unknown` has none and gives 0.
    pub open spec fn radix(self) -> int {
        match self {
            NumberSystem::Unknown => 0,
            NumberSystem::Decimal => 10,
            NumberSystem::Octal => 8,
            NumberSystem::Binary => 2,
            NumberSystem::Hexadecimal => 16,
        }
    }
}

impl Default for NumberSystem {
    fn default() -> (r: Self)
        ensures
            r == NumberSystem::Unknown,
    {
        NumberSystem::Unknown
    }
}

/// A value together with the line and column of the source it came from.
/// Lines and columns are counted from 1.
#[derive(Clone, Debug, PartialEq, Eq)]
pub struct Localized<V> {
    pub line_number: usize,
    pub char_number: usize,
    pub value: V,
}

impl<V> Localized<V> {
    /// Both coordinates are at least 1.
    pub open spec fn wf(&self) -> bool {
        self.line_number >= 1 && self.char_number >= 1
    }

    /// The two values sit at the same line and column.
    pub open spec fn same_place<N>(&self, other: &Localized<N>) -> bool {
        self.line_number == other.line_number && self.char_number == other.char_number
    }

    /// The same position around another value.
    pub open spec fn with<N>(&self, value: N) -> Localized<N> {
        Localized { line_number: self.line_number, char_number: self.char_number, value }
    }

    /// Places `value` at the start of the source: line 1, column 1.
    pub fn new(value: V) -> (r: Self)
        ensures
            r.line_number == 1,
            r.char_number == 1,
            r.value == value,
            r.wf(),
    {
        Self { line_number: 1, char_number: 1, value }
    }

    /// Keeps the position and replaces the value.
    pub fn transform<N>(&self, new: N) -> (r: Localized<N>)
        ensures
            r == self.with(new),
    {
        Localized { char_number: self.char_number, line_number: self.line_number, value: new }
    }

    /// Splits into the bare position and the value.
    pub fn cut(self) -> (r: (Localized<()>, V))
        ensures
            r.0 == self.with(()),
            r.1 == self.value,
    {
        let Self { line_number, char_number, value } = self;
        (Localized { char_number, line_number, value: () }, value)
    }

    /// Moves one column to the right.
    pub fn inc_char(&mut self)
        requires
            old(self).char_number < usize::MAX,
        ensures
            final(self).char_number == old(self).char_number + 1,
            final(self).line_number == old(self).line_number,
            final(self).value == old(self).value,
    {
        self.char_number += 1;
    }

    /// Moves to the first column of the next line.
    pub fn new_line(&mut self)
        requires
            old(self).line_number < usize::MAX,
        ensures
            final(self).line_number == old(self).line_number + 1,
            final(self).char_number == 1,
            final(self).value == old(self).value,
    {
        self.line_number += 1;
        self.char_number = 1;
    }

    /// Applies `map` to the value and keeps the position.
    pub fn map<F, N>(self, map: F) -> (r: Localized<N>) where F: FnOnce(V) -> N
        requires
            map.requires((self.value,)),
        ensures
            r.same_place(&self),
            map.ensures((self.value,), r.value),
    {
        let Self { line_number, char_number, value } = self;
        let value = (map)(value);
        Localized { line_number, char_number, value }
    }

    /// Drops the position.
    pub fn unwrap(self) -> (r: V)
        ensures
            r == self.value,
    {
        self.value
    }

    /// A success at the position of `output`.
    pub fn from_output<E>(output: Localized<V>) -> (r: Localized<Result<V, E>>)
        ensures
            r == output.with(Ok::<V, E>(output.value)),
    {
        let Localized { line_number, char_number, value } = output;
        Localized { line_number, char_number, value: Ok(value) }
    }

    /// A failure at the position of `residual`, whatever the success type.
    pub fn from_residual<T>(residual: Localized<V>) -> (r: Localized<Result<T, V>>)
        ensures
            r == residual.with(Err::<T, V>(residual.value)),
    {
        let Localized { line_number, char_number, value } = residual;
        Localized { line_number, char_number, value: Err(value) }
    }
}

impl<V: Default> Default for Localized<V> {
    /// The default value at the start of the source.
    fn default() -> (r: Self)
        ensures
            r.line_number == 1,
            r.char_number == 1,
            call_ensures(V::default, (), r.value),
    {
        Self::new(V::default())
    }
}

impl<T, E> Localized<Result<T, E>> {
    /// The failure with its position, if this is one.
    pub fn into_err(self) -> (r: Option<Localized<E>>)
        ensures
            r == match self.value {
                Ok(_) => None,
                Err(e) => Some(self.with(e)),
            },
    {
        let Self { line_number, char_number, value } = self;
        match value {
            Ok(..) => None,
            Err(e) => Some(Localized { line_number, char_number, value: e }),
        }
    }

    /// The success with its position, if this is one.
    pub fn into_ok(self) -> (r: Option<Localized<T>>)
        ensures
            r == match self.value {
                Ok(v) => Some(self.with(v)),
                Err(_) => None,
            },
    {
        let Self { line_number, char_number, value } = self;
        match value {
            Err(..) => None,
            Ok(v) => Some(Localized { line_number, char_number, value: v }),
        }
    }

    /// Unwrap or propagate: a success gives the located value to continue
    /// with, a failure gives the located error to hand to the caller. Either
    /// keeps the position.
    pub fn branch(self) -> (r: Result<Localized<T>, Localized<E>>)
        ensures
            r == match self.value {
                Ok(v) => Ok::<Localized<T>, Localized<E>>(self.with(v)),
                Err(e) => Err(self.with(e)),
            },
    {
        let Self { line_number, char_number, value } = self;
        match value {
            Ok(value) => Ok(Localized { value, line_number, char_number }),
            Err(value) => Err(Localized { value, line_number, char_number }),
        }
    }
}

/// A value that may or may not carry its source position. Which of the two
/// is chosen once for a whole run.
#[derive(Clone, Debug, PartialEq, Eq)]
pub enum MaybeLocalized<V> {
    Localized(Localized<V>),
    General(V),
}

impl<V> MaybeLocalized<V> {
    /// The value inside, whichever the variant.
    pub open spec fn value(&self) -> V {
        match self {
            MaybeLocalized::General(v) => *v,
            MaybeLocalized::Localized(l) => l.value,
        }
    }

    /// The same variant, and position if any, around another value.
    pub open spec fn with<N>(&self, value: N) -> MaybeLocalized<N> {
        match self {
            MaybeLocalized::General(_) => MaybeLocalized::General(value),
            MaybeLocalized::Localized(l) => MaybeLocalized::Localized(l.with(value)),
        }
    }

    /// Drops the position, if there is one.
    pub fn unwrap(self) -> (r: V)
        ensures
            r == self.value(),
    {
        match self {
            Self::General(v) => v,
            Self::Localized(v) => v.unwrap(),
        }
    }

    /// The value inside, whichever the variant.
    pub fn value_of(&self) -> (r: &V)
        ensures
            *r == self.value(),
    {
        match self {
            Self::General(v) => v,
            Self::Localized(v) => &v.value,
        }
    }

    /// Splits into the bare position, if any, and the value.
    pub fn cut(self) -> (r: (MaybeLocalized<()>, V))
        ensures
            r.0 == self.with(()),
            r.1 == self.value(),
    {
        match self {
            Self::General(v) => (MaybeLocalized::General(()), v),
            Self::Localized(l) => {
                let (loc, val) = l.cut();
                (MaybeLocalized::Localized(loc), val)
            },
        }
    }

    /// Keeps the variant and position and replaces the value.
    pub fn transform<N>(&self, val: N) -> (r: MaybeLocalized<N>)
        ensures
            r == self.with(val),
    {
        match self {
            Self::General(..) => MaybeLocalized::General(val),
            Self::Localized(loc) => MaybeLocalized::Localized(loc.transform(val)),
        }
    }

    /// Applies `map` to the value and keeps the variant and position.
    pub fn map<F, N>(self, map: F) -> (r: MaybeLocalized<N>) where F: FnOnce(V) -> N
        requires
            map.requires((self.value(),)),
        ensures
            r == self.with(r.value()),
            map.ensures((self.value(),), r.value()),
    {
        match self {
            Self::General(v) => MaybeLocalized::General((map)(v)),
            Self::Localized(v) => MaybeLocalized::Localized(v.map(map)),
        }
    }

    /// A success of the same variant and position as `output`.
    pub fn from_output<E>(output: MaybeLocalized<V>) -> (r: MaybeLocalized<Result<V, E>>)
        ensures
            r == output.with(Ok::<V, E>(output.value())),
    {
        match output {
            MaybeLocalized::General(v) => MaybeLocalized::General(Ok(v)),
            MaybeLocalized::Localized(v) => MaybeLocalized::Localized(Localized::from_output(v)),
        }
    }

    /// A failure of the same variant and position as `residual`.
    pub fn from_residual<T>(residual: MaybeLocalized<V>) -> (r: MaybeLocalized<Result<T, V>>)
        ensures
            r == residual.with(Err::<T, V>(residual.value())),
    {
        match residual {
            MaybeLocalized::General(v) => MaybeLocalized::General(Err(v)),
            MaybeLocalized::Localized(v) => MaybeLocalized::Localized(
                Localized::from_residual(v),
            ),
        }
    }
}

impl<T, E> MaybeLocalized<Result<T, E>> {
    /// The failure, with its position if it has one.
    pub fn into_err(self) -> (r: Option<MaybeLocalized<E>>)
        ensures
            r == match self.value() {
                Ok(_) => None,
                Err(e) => Some(self.with(e)),
            },
    {
        match self {
            Self::General(v) => match v {
                Ok(..) => None,
                Err(e) => Some(MaybeLocalized::General(e)),
            },
            Self::Localized(v) => match v.into_err() {
                None => None,
                Some(e) => Some(MaybeLocalized::Localized(e)),
            },
        }
    }

    /// The success, with its position if it has one.
    pub fn into_ok(self) -> (r: Option<MaybeLocalized<T>>)
        ensures
            r == match self.value() {
                Ok(v) => Some(self.with(v)),
                Err(_) => None,
            },
    {
        match self {
            Self::General(v) => match v {
                Err(..) => None,
                Ok(v) => Some(MaybeLocalized::General(v)),
            },
            Self::Localized(v) => match v.into_ok() {
                None => None,
                Some(v) => Some(MaybeLocalized::Localized(v)),
            },
        }
    }

    /// Unwrap or propagate, keeping the variant and the position.
    pub fn branch(self) -> (r: Result<MaybeLocalized<T>, MaybeLocalized<E>>)
        ensures
            r == match self.value() {
                Ok(v) => Ok::<MaybeLocalized<T>, MaybeLocalized<E>>(self.with(v)),
                Err(e) => Err(self.with(e)),
            },
    {
        match self {
            Self::General(v) => match v {
                Ok(v) => Ok(MaybeLocalized::General(v)),
                Err(e) => Err(MaybeLocalized::General(e)),
            },
            Self::Localized(v) => match v.branch() {
                Ok(v) => Ok(MaybeLocalized::Localized(v)),
                Err(e) => Err(MaybeLocalized::Localized(e)),
            },
        }
    }
}

impl<V> From<Localized<V>> for MaybeLocalized<V> {
    /// A value with its position.
    fn from(value: Localized<V>) -> (r: Self) {
        Self::Localized(value)
    }
}

impl<V> vstd::std_specs::convert::FromSpecImpl<Localized<V>> for MaybeLocalized<V> {
    open spec fn obeys_from_spec() -> bool {
        true
    }

    open spec fn from_spec(value: Localized<V>) -> Self {
        Self::Localized(value)
    }
}

impl<V> From<V> for MaybeLocalized<V> {
    /// A value without a position.
    fn from(value: V) -> (r: Self) {
        Self::General(value)
    }
}

impl<V> vstd::std_specs::convert::FromSpecImpl<V> for MaybeLocalized<V> {
    open spec fn obeys_from_spec() -> bool {
        true
    }

    open spec fn from_spec(value: V) -> Self {
        Self::General(value)
    }
}

} // verus!
