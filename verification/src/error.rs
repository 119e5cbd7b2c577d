//! What can go wrong in a calculation on business days, and how it is worded.

use vstd::prelude::*;
use vstd::string::StringExecFns;

verus! {

/// The errors of this library.
#[derive(Debug, PartialEq, Eq)]
pub enum Error {
    /// A start date is no business day and the roll policy is to raise; `date` is that date.
    Calendar { date: i32 },
    /// A roll policy was named that does not exist; `roll` is the name given.
    Configuration { roll: String },
    /// A column or a field is not of a type that the operation takes; `dtype` is the name
    /// of its type.
    Type { dtype: String },
    /// A time zone is unknown, or a time on the clock comes twice or not at all in a time
    /// zone; `message` holds the words of the refusal.
    TimeZone { message: String },
    /// A way to choose between the two times of a clock that shows a time twice was named
    /// that does not exist; `name` is the name given.
    Ambiguous { name: String },
    /// A locale was named that is not known; `locale` is the name given.
    Locale { locale: String },
}

/// The calendar date that lies `seconds` seconds after the start of 1970, written as year,
/// month and day with hyphens between them, or nothing for a moment too far away to be
/// written so.
pub uninterp spec fn iso_date(seconds: int) -> Option<Seq<char>>;

/// `chrono::DateTime::from_timestamp` with no nanoseconds, and `DateTime::format` with
/// `%Y-%m-%d`: the text of the date of a moment given in seconds, or nothing where chrono
/// has no date for the moment.
#[verifier::external_body]
fn date_text(seconds: i64) -> (text: Option<String>)
    ensures
        text is Some <==> iso_date(seconds as int) is Some,
        text is Some ==> text.unwrap()@ == iso_date(seconds as int).unwrap(),
{
    match chrono::DateTime::from_timestamp(seconds, 0) {
        Some(moment) => Some(moment.format("%Y-%m-%d").to_string()),
        None => None,
    }
}

/// The number of seconds from the start of 1970 to the start of day `date`.
pub open spec fn seconds_of(date: int) -> int {
    date * 24 * 60 * 60
}

impl Error {
    /// Whether the error can be worded: a calendar error needs the text of its date.
    pub open spec fn has_message(self) -> bool {
        match self {
            Error::Calendar { date } => iso_date(seconds_of(date as int)) is Some,
            _ => true,
        }
    }

    /// The wording of the error.
    pub open spec fn message_text(self) -> Seq<char> {
        match self {
            Error::Calendar { date } => "date "@ + iso_date(seconds_of(date as int)).unwrap()
                + " is not a business date, cannot advance; set a valid `roll` strategy."@,
            Error::Configuration { roll } =>
                "`roll` must be one of 'raise', 'forward' or 'backward'; found '"@ + roll@ + "'"@,
            Error::Type { dtype } => "expected Datetime or Date dtype, got: "@ + dtype@,
            Error::TimeZone { message } => message@,
            Error::Ambiguous { name } => "Invalid argument "@ + name@
                + ", expected one of: \"earliest\", \"latest\", \"raise\""@,
            Error::Locale { locale } => "given locale "@ + locale@ + " could not be parsed"@,
        }
    }

    /// The wording of the error, for an error that has one.
    pub fn message(&self) -> (text: String)
        requires
            self.has_message(),
        ensures
            text@ == self.message_text(),
    {
        match self {
            Error::Calendar { date } => {
                let seconds = *date as i64 * 24 * 60 * 60;
                let day = date_text(seconds).unwrap();
                let mut text = String::from_str("date ");
                text.append(day.as_str());
                text.append(" is not a business date, cannot advance; set a valid `roll` strategy.");
                text
            },
            Error::Configuration { roll } => {
                let mut text = String::from_str(
                    "`roll` must be one of 'raise', 'forward' or 'backward'; found '",
                );
                text.append(roll.as_str());
                text.append("'");
                text
            },
            Error::Type { dtype } => {
                let mut text = String::from_str("expected Datetime or Date dtype, got: ");
                text.append(dtype.as_str());
                text
            },
            Error::TimeZone { message } => message.clone(),
            Error::Ambiguous { name } => {
                let mut text = String::from_str("Invalid argument ");
                text.append(name.as_str());
                text.append(", expected one of: \"earliest\", \"latest\", \"raise\"");
                text
            },
            Error::Locale { locale } => {
                let mut text = String::from_str("given locale ");
                text.append(locale.as_str());
                text.append(" could not be parsed");
                text
            },
        }
    }

    /// The wording of the error, or nothing for a calendar error whose date is too far
    /// away to be written.
    pub fn try_message(&self) -> (text: Option<String>)
        ensures
            text is Some <==> self.has_message(),
            text is Some ==> text.unwrap()@ == self.message_text(),
    {
        let worded = match self {
            Error::Calendar { date } => date_text(*date as i64 * 24 * 60 * 60).is_some(),
            _ => true,
        };
        if worded {
            Some(self.message())
        } else {
            None
        }
    }
}

} // verus!
