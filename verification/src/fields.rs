//! The types of the columns that come out of the conversions between time zones.

use crate::columns::TimeUnit;
use crate::error::Error;
use crate::time_zone::zone_text;
use vstd::prelude::*;
use vstd::string::StringExecFns;

verus! {

/// The type of a column.
#[derive(Debug, PartialEq, Eq)]
pub enum DataType {
    /// Day ordinals.
    Date,
    /// Datetimes in a unit, with the name of their time zone if they have one.
    Datetime(TimeUnit, Option<String>),
    /// Anything else, by its name.
    Other(String),
}

/// The name and the type of a column.
#[derive(Debug, PartialEq, Eq)]
pub struct Field {
    pub name: String,
    pub dtype: DataType,
}

/// What a conversion from the clocks of time zones is told: the zone in which the result
/// is to be, and how to settle a time that a clock shows twice.
#[derive(Debug, PartialEq, Eq)]
pub struct FromLocalDatetimeKwargs {
    pub to_tz: String,
    pub ambiguous: String,
}

impl DataType {
    /// The name of the type.
    pub open spec fn dtype_name(self) -> Seq<char> {
        match self {
            DataType::Date => "date"@,
            DataType::Datetime(unit, None) => "datetime["@ + unit.name() + "]"@,
            DataType::Datetime(unit, Some(zone)) => "datetime["@ + unit.name() + ", "@ + zone@
                + "]"@,
            DataType::Other(name) => name@,
        }
    }

    /// The name of the type.
    pub fn name(&self) -> (name: String)
        ensures
            name@ == self.dtype_name(),
    {
        match self {
            DataType::Date => String::from_str("date"),
            DataType::Datetime(unit, zone) => {
                let mut name = String::from_str("datetime[");
                name.append(unit.short_name());
                match zone {
                    Some(zone) => {
                        name.append(", ");
                        name.append(zone.as_str());
                    },
                    None => {},
                }
                name.append("]");
                name
            },
            DataType::Other(name) => name.clone(),
        }
    }
}

/// What the type of a converted column is: that of a column of datetimes in the unit of
/// the first field and in the zone given, under the name of the first field; a first
/// field of another type is refused.
pub open spec fn is_datetime_output(first: Field, zone: Option<Seq<char>>, res: Result<Field, Error>) -> bool {
    match first.dtype {
        DataType::Datetime(unit, _) => {
            &&& res matches Ok(field)
            &&& field.name@ == first.name@
            &&& field.dtype matches DataType::Datetime(out_unit, out_zone)
            &&& out_unit == unit
            &&& zone_text(out_zone) == zone
        },
        _ => res matches Err(Error::Type { dtype }) && dtype@ == first.dtype.dtype_name(),
    }
}

/// The type of what [`crate::local_datetime::elementwise_to_local_datetime`] makes of a
/// column of the type of the first field: datetimes in the same unit without a time zone.
pub fn to_local_datetime_output(input_fields: &[Field]) -> (res: Result<Field, Error>)
    requires
        input_fields@.len() >= 1,
    ensures
        is_datetime_output(input_fields@[0], None, res),
{
    let field = &input_fields[0];
    match &field.dtype {
        DataType::Datetime(unit, _) => Ok(
            Field { name: field.name.clone(), dtype: DataType::Datetime(*unit, None) },
        ),
        other => Err(Error::Type { dtype: other.name() }),
    }
}

/// The type of what [`crate::local_datetime::elementwise_from_local_datetime`] makes of a
/// column of the type of the first field: datetimes in the same unit in the zone that
/// `kwargs` names.
pub fn from_local_datetime_output(input_fields: &[Field], kwargs: FromLocalDatetimeKwargs) -> (res:
    Result<Field, Error>)
    requires
        input_fields@.len() >= 1,
    ensures
        is_datetime_output(input_fields@[0], Some(kwargs.to_tz@), res),
{
    let field = &input_fields[0];
    match &field.dtype {
        DataType::Datetime(unit, _) => Ok(
            Field { name: field.name.clone(), dtype: DataType::Datetime(*unit, Some(kwargs.to_tz)) },
        ),
        other => Err(Error::Type { dtype: other.name() }),
    }
}

} // verus!
