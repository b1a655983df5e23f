//! The typed values: what it means for a value to fit a datatype.

use vstd::prelude::*;
use vstd::string::*;
use crate::error::ValidationError;
use crate::ident::{contains_id, distinct_ids, find, lemma_position};
use crate::model::{AttributeValue, DatatypeDefinition, EnumValue};

verus! {

/// `value` lies within the integer bounds that are present.
pub open spec fn integer_within(value: i64, min: Option<i64>, max: Option<i64>) -> bool {
    &&& min matches Some(low) ==> low <= value
    &&& max matches Some(high) ==> value <= high
}

/// A text of `length` characters is no longer than the limit, if there is one.
pub open spec fn length_within(length: nat, max_length: Option<u32>) -> bool {
    max_length matches Some(limit) ==> length <= limit
}

/// What checking `value` against `datatype` gives: a value of another kind is
/// a mismatch; a number must lie within the bounds that are present; a string
/// must be no longer, in characters, than the limit; an enumeration value must
/// name a declared value. Booleans and XHTML values of the right kind always
/// fit. The accuracy of a real datatype is a hint for display and is not
/// checked.
pub open spec fn value_check(datatype: DatatypeDefinition, value: AttributeValue) -> Result<
    (),
    ValidationError,
> {
    match (datatype, value) {
        (DatatypeDefinition::Boolean { .. }, AttributeValue::Boolean { .. }) => Ok(()),
        (
            DatatypeDefinition::Integer { min, max, .. },
            AttributeValue::Integer { value: number, .. },
        ) => if integer_within(number, min, max) {
            Ok(())
        } else {
            Err(ValidationError::OutOfRange)
        },
        (
            DatatypeDefinition::Real { min, max, .. },
            AttributeValue::Real { value: number, .. },
        ) => if number.within(min, max) {
            Ok(())
        } else {
            Err(ValidationError::OutOfRange)
        },
        (
            DatatypeDefinition::String { max_length, .. },
            AttributeValue::String { value: text, .. },
        ) => if length_within(text@.len(), max_length) {
            Ok(())
        } else {
            Err(ValidationError::LengthExceeded)
        },
        (
            DatatypeDefinition::Enumeration { values, .. },
            AttributeValue::Enumeration { value: chosen, .. },
        ) => if contains_id(values@, chosen@) {
            Ok(())
        } else {
            Err(ValidationError::UnknownEnumValue)
        },
        (DatatypeDefinition::XHTML { .. }, AttributeValue::XHTML { .. }) => Ok(()),
        _ => Err(ValidationError::KindMismatch),
    }
}

/// The datatype is sound in itself: a lower bound does not exceed an upper
/// bound, and an enumeration declares no value identifier twice.
pub open spec fn datatype_sound(datatype: DatatypeDefinition) -> bool {
    match datatype {
        DatatypeDefinition::Integer { min: Some(low), max: Some(high), .. } => low <= high,
        DatatypeDefinition::Real { min: Some(low), max: Some(high), .. } => low.le(high),
        DatatypeDefinition::Enumeration { values, .. } => distinct_ids(values@),
        _ => true,
    }
}

/// Checks `value` against `definition`.
pub fn validate_value(definition: &DatatypeDefinition, value: &AttributeValue) -> (outcome: Result<
    (),
    ValidationError,
>)
    ensures
        outcome == value_check(*definition, *value),
{
    match (definition, value) {
        (DatatypeDefinition::Boolean { .. }, AttributeValue::Boolean { .. }) => Ok(()),
        (
            DatatypeDefinition::Integer { min, max, .. },
            AttributeValue::Integer { value: number, .. },
        ) => {
            let above = match min {
                Some(low) => *low <= *number,
                None => true,
            };
            let below = match max {
                Some(high) => *number <= *high,
                None => true,
            };
            if above && below {
                Ok(())
            } else {
                Err(ValidationError::OutOfRange)
            }
        },
        (
            DatatypeDefinition::Real { min, max, .. },
            AttributeValue::Real { value: number, .. },
        ) => {
            if number.is_within(*min, *max) {
                Ok(())
            } else {
                Err(ValidationError::OutOfRange)
            }
        },
        (
            DatatypeDefinition::String { max_length, .. },
            AttributeValue::String { value: text, .. },
        ) => {
            match max_length {
                Some(limit) => {
                    if text.as_str().unicode_len() <= *limit as usize {
                        Ok(())
                    } else {
                        Err(ValidationError::LengthExceeded)
                    }
                },
                None => Ok(()),
            }
        },
        (
            DatatypeDefinition::Enumeration { values, .. },
            AttributeValue::Enumeration { value: chosen, .. },
        ) => {
            proof {
                lemma_position::<EnumValue>(values@, chosen@);
            }
            if find(values, chosen).is_some() {
                Ok(())
            } else {
                Err(ValidationError::UnknownEnumValue)
            }
        },
        (DatatypeDefinition::XHTML { .. }, AttributeValue::XHTML { .. }) => Ok(()),
        _ => Err(ValidationError::KindMismatch),
    }
}

/// A value fits a datatype only if both are of one kind, and a value of
/// another kind is reported as a mismatch whatever it holds.
pub proof fn lemma_kind_decides(datatype: DatatypeDefinition, value: AttributeValue)
    ensures
        datatype.spec_kind() != value.spec_kind() <==> value_check(datatype, value) == Err::<
            (),
            ValidationError,
        >(ValidationError::KindMismatch),
        value_check(datatype, value) is Ok ==> datatype.spec_kind() == value.spec_kind(),
{
}

/// An integer above the upper bound of an integer datatype, or below its
/// lower bound, is out of range.
pub proof fn lemma_integer_beyond_bound(datatype: DatatypeDefinition, value: AttributeValue)
    requires
        datatype is Integer,
        value is Integer,
        ({
            ||| datatype->Integer_max matches Some(high) && value->Integer_value > high
            ||| datatype->Integer_min matches Some(low) && value->Integer_value < low
        }),
    ensures
        value_check(datatype, value) == Err::<(), ValidationError>(ValidationError::OutOfRange),
{
}

/// An enumeration value fits an enumeration datatype exactly when the
/// datatype declares a value with that identifier.
pub proof fn lemma_enumeration_declared(datatype: DatatypeDefinition, value: AttributeValue)
    requires
        datatype is Enumeration,
        value is Enumeration,
    ensures
        value_check(datatype, value) is Ok <==> contains_id(
            datatype->Enumeration_values@,
            value->Enumeration_value@,
        ),
        value_check(datatype, value) is Err ==> value_check(datatype, value) == Err::<
            (),
            ValidationError,
        >(ValidationError::UnknownEnumValue),
{
}

} // verus!
