//! Validation of raw numeric codes from the input layer.
//!
//! These checks run on raw external input before any `Category` is
//! constructed; `Item::get_category` treats out-of-range codes as a
//! contract violation precisely because these gates are assumed to have
//! run first.

use vstd::prelude::*;

verus! {

/// A rejected raw code, by the check that rejected it.
#[derive(Debug, PartialEq, Eq, Clone, Copy, Structural)]
pub enum ValidationError {
    InvalidServiceType,
    InvalidRegisterType,
    InvalidCategoryType,
}

/// Stateless validator for the raw codes the input layer collects.
pub struct InputValidator {}

impl InputValidator {
    /// Legacy alias of the register-type rule: a service-type code is
    /// legal exactly when it is 0 or 1.
    pub fn validate_service_type(service_type: u8) -> (r: Result<(), ValidationError>)
        ensures
            r is Ok <==> (service_type == 0 || service_type == 1),
            r matches Err(e) ==> e == ValidationError::InvalidServiceType,
    {
        match service_type {
            0 | 1 => Ok(()),
            _ => Err(ValidationError::InvalidServiceType),
        }
    }

    /// A register-type code is legal exactly when it is 0 (income) or
    /// 1 (expense).
    pub fn validate_register_type(register_type: u8) -> (r: Result<(), ValidationError>)
        ensures
            r is Ok <==> (register_type == 0 || register_type == 1),
            r matches Err(e) ==> e == ValidationError::InvalidRegisterType,
    {
        match register_type {
            0 | 1 => Ok(()),
            _ => Err(ValidationError::InvalidRegisterType),
        }
    }

    /// A category-type code is legal exactly when it is 0, 1 or 2.
    ///
    /// Both register types currently admit the same three codes, but the
    /// check stays parameterized by register type so a future asymmetric
    /// taxonomy could tighten one branch without touching call sites.
    pub fn validate_category_type(register_type: u8, category_type: u8) -> (r: Result<
        (),
        ValidationError,
    >)
        ensures
            r is Ok <==> category_type <= 2,
            r matches Err(e) ==> e == ValidationError::InvalidCategoryType,
    {
        if register_type == 0 {
            match category_type {
                0 | 1 | 2 => Ok(()),
                _ => Err(ValidationError::InvalidCategoryType),
            }
        } else {
            match category_type {
                0 | 1 | 2 => Ok(()),
                _ => Err(ValidationError::InvalidCategoryType),
            }
        }
    }
}

} // verus!
