//! A simulation value together with the style to format it in
use vstd::prelude::*;

use crate::fmt::{fits, format_bits, formatted};
use crate::traits::{bits_of, value_bits, SimCopyValue};

verus! {

/// A simulation value with a formatting style (a combination of
/// [crate::fmt::AS_HEX], [crate::fmt::AS_BIN] and [crate::fmt::HDR])
pub struct SimFormatValue<'a, T: SimCopyValue> {
    value: &'a T,
    style: usize,
}

impl<'a, T: SimCopyValue> SimFormatValue<'a, T> {
    /// The value that is formatted
    pub closed spec fn spec_value(&self) -> &'a T {
        self.value
    }

    /// The style that it is formatted in
    pub closed spec fn spec_style(&self) -> usize {
        self.style
    }

    /// Pair a value with a style
    pub fn new(value: &'a T, style: usize) -> (r: Self)
        ensures
            r.spec_value() == value,
            r.spec_style() == style,
    {
        Self { value, style }
    }

    /// The text of `value` in `style`
    pub fn value_string(value: &T, style: usize) -> (r: String)
        requires
            fits(T::spec_bit_width(), style, T::spec_fmt_hex(), T::spec_fmt_bin()),
        ensures
            r@ == formatted(value_bits(value), style, T::spec_fmt_hex(), T::spec_fmt_bin()),
    {
        let bits = bits_of(value);
        format_bits(&bits, style, T::fmt_hex(), T::fmt_bin())
    }

    /// The text of the value in its style
    pub fn as_string(&self) -> (r: String)
        requires
            fits(T::spec_bit_width(), self.spec_style(), T::spec_fmt_hex(), T::spec_fmt_bin()),
        ensures
            r@ == formatted(
                value_bits(self.spec_value()),
                self.spec_style(),
                T::spec_fmt_hex(),
                T::spec_fmt_bin(),
            ),
    {
        Self::value_string(self.value, self.style)
    }
}

} // verus!
