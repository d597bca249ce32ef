//! Errors of the transformation, and the messages that describe them.
use vstd::prelude::*;
use vstd::std_specs::convert::FromSpecImpl;
use vstd::string::StringExecFns;

use crate::config::{DataType, datatype_name};

verus! {

/// A feature was present in the input but its value does not fit its type.
#[derive(Debug)]
pub struct WrongValueError {
    field: String,
    expected_type: DataType,
}

/// A feature that is not nullable is absent from the input.
#[derive(Debug)]
pub struct NotFoundError {
    field: String,
}

/// The configuration was used before it was prepared.
#[derive(Debug)]
pub struct NotPreparedError;

/// Any error of the transformation.
#[derive(Debug)]
pub enum FeatureError {
    WrongValue(WrongValueError),
    NotFound(NotFoundError),
    NotPrepared(NotPreparedError),
}

/// An error as a mathematical value: its kind, the name of the field it is
/// about and, for a wrong value, the type that was expected.
pub enum ErrorView {
    WrongValue { field: Seq<char>, expected_type: DataType },
    NotFound { field: Seq<char> },
    NotPrepared,
}

impl WrongValueError {
    pub closed spec fn field_view(self) -> Seq<char> {
        self.field@
    }

    pub closed spec fn expected_view(self) -> DataType {
        self.expected_type
    }

    pub fn new(field: &str, expected_type: &DataType) -> (r: Self)
        ensures
            r.field_view() == field@,
            r.expected_view() == *expected_type,
    {
        WrongValueError { field: String::from_str(field), expected_type: *expected_type }
    }

    /// "Wrong value for field: <field>, expected a <type>"
    pub fn message(&self) -> (r: String)
        ensures
            r@ == "Wrong value for field: "@ + self.field_view() + ", expected a "@
                + datatype_name(self.expected_view()),
    {
        let mut s = String::from_str("Wrong value for field: ");
        s.append(self.field.as_str());
        s.append(", expected a ");
        s.append(self.expected_type.name());
        s
    }
}

impl NotFoundError {
    pub closed spec fn field_view(self) -> Seq<char> {
        self.field@
    }

    pub fn new(field: &str) -> (r: Self)
        ensures
            r.field_view() == field@,
    {
        NotFoundError { field: String::from_str(field) }
    }

    /// "Feature with name <field> not found!"
    pub fn message(&self) -> (r: String)
        ensures
            r@ == "Feature with name "@ + self.field_view() + " not found!"@,
    {
        let mut s = String::from_str("Feature with name ");
        s.append(self.field.as_str());
        s.append(" not found!");
        s
    }
}

impl NotPreparedError {
    pub fn new() -> (r: Self) {
        NotPreparedError
    }

    /// "features are not prepared"
    pub fn message(&self) -> (r: String)
        ensures
            r@ == "features are not prepared"@,
    {
        String::from_str("features are not prepared")
    }
}

impl View for FeatureError {
    type V = ErrorView;

    open spec fn view(&self) -> ErrorView {
        match self {
            FeatureError::WrongValue(e) => ErrorView::WrongValue {
                field: e.field_view(),
                expected_type: e.expected_view(),
            },
            FeatureError::NotFound(e) => ErrorView::NotFound { field: e.field_view() },
            FeatureError::NotPrepared(_) => ErrorView::NotPrepared,
        }
    }
}

impl FeatureError {
    /// The message of the error that this one wraps.
    pub fn message(&self) -> (r: String)
        ensures
            r@ == (match self {
                FeatureError::WrongValue(e) => "Wrong value for field: "@ + e.field_view()
                    + ", expected a "@ + datatype_name(e.expected_view()),
                FeatureError::NotFound(e) => "Feature with name "@ + e.field_view()
                    + " not found!"@,
                FeatureError::NotPrepared(_) => "features are not prepared"@,
            }),
    {
        match self {
            FeatureError::WrongValue(e) => e.message(),
            FeatureError::NotFound(e) => e.message(),
            FeatureError::NotPrepared(e) => e.message(),
        }
    }
}

impl From<WrongValueError> for FeatureError {
    fn from(err: WrongValueError) -> (r: Self) {
        FeatureError::WrongValue(err)
    }
}

impl FromSpecImpl<WrongValueError> for FeatureError {
    open spec fn obeys_from_spec() -> bool {
        true
    }

    open spec fn from_spec(v: WrongValueError) -> Self {
        FeatureError::WrongValue(v)
    }
}

impl From<NotFoundError> for FeatureError {
    fn from(err: NotFoundError) -> (r: Self) {
        FeatureError::NotFound(err)
    }
}

impl FromSpecImpl<NotFoundError> for FeatureError {
    open spec fn obeys_from_spec() -> bool {
        true
    }

    open spec fn from_spec(v: NotFoundError) -> Self {
        FeatureError::NotFound(v)
    }
}

impl From<NotPreparedError> for FeatureError {
    fn from(err: NotPreparedError) -> (r: Self) {
        FeatureError::NotPrepared(err)
    }
}

impl FromSpecImpl<NotPreparedError> for FeatureError {
    open spec fn obeys_from_spec() -> bool {
        true
    }

    open spec fn from_spec(v: NotPreparedError) -> Self {
        FeatureError::NotPrepared(v)
    }
}

} // verus!
