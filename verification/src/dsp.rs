//! The effect model: which effects exist and the parameters each one takes.
//!
//! The sample arithmetic of the effects is floating point; this library holds
//! each floating-point parameter as the literal that denotes it, checked
//! against the floating-point grammar, and leaves its conversion to a binary
//! float to the code that runs the effects.
use vstd::prelude::*;

use crate::literal::{chars_of, float_literal_chars, is_float_literal};

verus! {

/// A floating-point parameter, held as the literal that denotes it. Two
/// coefficients are equal when their literals are (`2` and `2.0` differ).
#[derive(Debug, PartialEq)]
pub struct Coefficient {
    text: String,
}

impl Coefficient {
    #[verifier::type_invariant]
    spec fn well_formed(self) -> bool {
        is_float_literal(self.text@)
    }

    /// The coefficient written as `token`, or `None` where `token` is not a
    /// floating-point literal.
    pub fn from_literal(token: &str) -> (r: Option<Coefficient>)
        ensures
            r is Some <==> is_float_literal(token@),
            r matches Some(c) ==> c@ == token@,
    {
        let cs = chars_of(token);
        if float_literal_chars(&cs) {
            Some(Coefficient { text: token.to_owned() })
        } else {
            None
        }
    }

    /// The literal, as text.
    pub fn as_str(&self) -> (r: &str)
        ensures
            r@ == self@,
            is_float_literal(r@),
    {
        proof {
            use_type_invariant(self);
        }
        self.text.as_str()
    }
}

impl View for Coefficient {
    type V = Seq<char>;

    closed spec fn view(&self) -> Seq<char> {
        self.text@
    }
}

/// An effect and its parameters. Effects are applied to the samples in the
/// order in which they are listed.
#[derive(Debug, PartialEq)]
pub enum Effect {
    /// Multiplies every sample by `factor`.
    Gain { factor: Coefficient },
    /// Adds to each sample the sample `delay` places earlier, times `factor`.
    Echo { delay: usize, factor: Coefficient },
    /// One-pole low-pass filter with smoothing coefficient `alpha`.
    LowPass { alpha: Coefficient },
}

/// An effect with each coefficient taken as its literal.
pub enum EffectModel {
    Gain { factor: Seq<char> },
    Echo { delay: usize, factor: Seq<char> },
    LowPass { alpha: Seq<char> },
}

impl View for Effect {
    type V = EffectModel;

    open spec fn view(&self) -> EffectModel {
        match self {
            Effect::Gain { factor } => EffectModel::Gain { factor: factor@ },
            Effect::Echo { delay, factor } => EffectModel::Echo { delay: *delay, factor: factor@ },
            Effect::LowPass { alpha } => EffectModel::LowPass { alpha: alpha@ },
        }
    }
}

} // verus!
