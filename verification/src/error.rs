//! Classified errors: a value carrying a category (who is at fault), an
//! optional machine-readable type, tags, a source location and a message.
//!
//! The concrete error values below model the declarations whose location
//! strings they carry; each converts into [`Error`] with its
//! classification. A classified error can also travel through an
//! `anyhow::Error` boundary: the classification and message are carried
//! as text and recovered on the way back.

use vstd::prelude::*;
use vstd::string::StrSliceExecFns;
use vstd::string::StringExecFns;

verus! {

/// Who is at fault for an error.
#[derive(Clone, Copy, PartialEq, Eq, Structural, Debug)]
pub enum Category {
    User,
    Infra,
}

/// Machine-readable classification of an error.
#[derive(Clone, Copy, PartialEq, Eq, Structural, Debug)]
pub enum ErrorType {
    ActionCommandFailure,
    DaemonIsBusy,
    Watchman,
}

/// Free-form markers attached to an error.
#[derive(Clone, Copy, PartialEq, Eq, Structural, Debug)]
pub enum ErrorTag {
    StarlarkFail,
    WatchmanTimeout,
}

/// A classified error: category, optional type, tags, source location
/// and message.
#[derive(Debug)]
pub struct ClassifiedError {
    pub category: Option<Category>,
    pub typ: Option<ErrorType>,
    pub tags: Vec<ErrorTag>,
    pub source_location: Option<String>,
    pub message: String,
}

/// The location string recorded for a declaration of the given name.
pub open spec fn location_text(name: Seq<char>) -> Seq<char> {
    "buck2_error/src/derive_tests.rs::"@ + name
}

/// Render the location string for a declaration.
fn location_of(name: &str) -> (r: String)
    ensures
        r@ == location_text(name@),
{
    let r = String::from_str("buck2_error/src/derive_tests.rs::").concat(name);
    proof {
        assert(r@ =~= location_text(name@));
    }
    r
}

impl ClassifiedError {
    pub fn get_category(&self) -> (r: Option<Category>)
        ensures
            r == self.category,
    {
        self.category
    }

    pub fn get_error_type(&self) -> (r: Option<ErrorType>)
        ensures
            r == self.typ,
    {
        self.typ
    }

    pub fn source_location(&self) -> (r: Option<&str>)
        ensures
            match r {
                Option::Some(s) => self.source_location matches Some(l) && s@ == l@,
                Option::None => self.source_location is None,
            },
    {
        match &self.source_location {
            Some(l) => Some(l.as_str()),
            None => None,
        }
    }

    pub fn get_tags(&self) -> (r: Vec<ErrorTag>)
        ensures
            r@ == self.tags@,
    {
        let n = self.tags.len();
        let mut r: Vec<ErrorTag> = Vec::new();
        let mut i: usize = 0;
        while i < n
            invariant
                n == self.tags@.len(),
                0 <= i <= n,
                r@ == self.tags@.take(i as int),
            decreases n - i,
        {
            r.push(self.tags[i]);
            proof {
                assert(r@ =~= self.tags@.take(i + 1));
            }
            i = i + 1;
        }
        proof {
            assert(self.tags@.take(n as int) =~= self.tags@);
        }
        r
    }
}

/// The character carrying a category through the text boundary.
pub open spec fn category_char(c: Option<Category>) -> char {
    match c {
        Option::Some(Category::User) => 'U',
        Option::Some(Category::Infra) => 'I',
        Option::None => '-',
    }
}

/// The category a carried character decodes to.
pub open spec fn category_of_char(c: char) -> Option<Category> {
    if c == 'U' {
        Some(Category::User)
    } else if c == 'I' {
        Some(Category::Infra)
    } else {
        None
    }
}

/// The character carrying an error type through the text boundary.
pub open spec fn typ_char(t: Option<ErrorType>) -> char {
    match t {
        Option::Some(ErrorType::ActionCommandFailure) => 'A',
        Option::Some(ErrorType::DaemonIsBusy) => 'D',
        Option::Some(ErrorType::Watchman) => 'W',
        Option::None => '-',
    }
}

/// The error type a carried character decodes to.
pub open spec fn typ_of_char(c: char) -> Option<ErrorType> {
    if c == 'A' {
        Some(ErrorType::ActionCommandFailure)
    } else if c == 'D' {
        Some(ErrorType::DaemonIsBusy)
    } else if c == 'W' {
        Some(ErrorType::Watchman)
    } else {
        None
    }
}

/// The textual form that carries an error's classification and message.
pub open spec fn encoded_text(
    category: Option<Category>,
    typ: Option<ErrorType>,
    message: Seq<char>,
) -> Seq<char> {
    seq![category_char(category), typ_char(typ)] + message
}

/// The carried characters decode back to what they encode.
pub proof fn lemma_codec_roundtrip(category: Option<Category>, typ: Option<ErrorType>)
    ensures
        category_of_char(category_char(category)) == category,
        typ_of_char(typ_char(typ)) == typ,
{
}

impl ClassifiedError {
    /// The textual form of this error, as handed through the `anyhow`
    /// boundary: classification first, message after.
    pub fn encode(&self) -> (r: String)
        ensures
            r@ == encoded_text(self.category, self.typ, self.message@),
    {
        let c0 = match self.category {
            Some(Category::User) => "U",
            Some(Category::Infra) => "I",
            None => "-",
        };
        let c1 = match self.typ {
            Some(ErrorType::ActionCommandFailure) => "A",
            Some(ErrorType::DaemonIsBusy) => "D",
            Some(ErrorType::Watchman) => "W",
            None => "-",
        };
        let r = String::from_str(c0).concat(c1).concat(self.message.as_str());
        proof {
            reveal_strlit("U");
            reveal_strlit("I");
            reveal_strlit("-");
            reveal_strlit("A");
            reveal_strlit("D");
            reveal_strlit("W");
            assert(r@ =~= encoded_text(self.category, self.typ, self.message@));
        }
        r
    }

    /// Decode the textual form back into an error: the classification is
    /// read off the two leading characters, the rest is the message. Text
    /// too short for a classification becomes an unclassified error
    /// carrying the whole text. Location and tags do not travel.
    pub fn decode(s: &str) -> (r: ClassifiedError)
        ensures
            r.tags@ == Seq::<ErrorTag>::empty(),
            r.source_location is None,
            s@.len() >= 2 ==> r.category == category_of_char(s@[0]) && r.typ == typ_of_char(s@[1])
                && r.message@ == s@.subrange(2, s@.len() as int),
            s@.len() < 2 ==> r.category is None && r.typ is None && r.message@ == s@,
    {
        let n = s.unicode_len();
        if n < 2 {
            return ClassifiedError {
                category: None,
                typ: None,
                tags: Vec::new(),
                source_location: None,
                message: String::from_str(s),
            };
        }
        let c0 = s.get_char(0);
        let c1 = s.get_char(1);
        let category = if c0 == 'U' {
            Some(Category::User)
        } else if c0 == 'I' {
            Some(Category::Infra)
        } else {
            None
        };
        let typ = if c1 == 'A' {
            Some(ErrorType::ActionCommandFailure)
        } else if c1 == 'D' {
            Some(ErrorType::DaemonIsBusy)
        } else if c1 == 'W' {
            Some(ErrorType::Watchman)
        } else {
            None
        };
        let message = String::from_str(s.substring_char(2, n));
        ClassifiedError { category, typ, tags: Vec::new(), source_location: None, message }
    }

    /// Hand this error through an `anyhow::Error`, carrying its textual
    /// form as the payload.
    pub fn into_anyhow(self) -> anyhow::Error {
        let text = self.encode();
        anyhow_from_message(text)
    }

    /// Recover a classified error from an `anyhow::Error`: an error that
    /// carries a textual form decodes to its classification and message;
    /// any other becomes an unclassified error holding nothing. Location
    /// and tags never travel through the boundary.
    pub fn from_anyhow(e: anyhow::Error) -> (r: ClassifiedError)
        ensures
            r.tags@ == Seq::<ErrorTag>::empty(),
            r.source_location is None,
    {
        match anyhow_message(&e) {
            Some(s) => ClassifiedError::decode(s.as_str()),
            None => ClassifiedError {
                category: None,
                typ: None,
                tags: Vec::new(),
                source_location: None,
                message: String::from_str(""),
            },
        }
    }
}

/// A user-caused error with a fixed message.
#[derive(Debug)]
pub struct Error1;

impl Error1 {
    pub fn into_error(self) -> (r: ClassifiedError)
        ensures
            r.category == Some(Category::User),
            r.typ is None,
            r.tags@ == Seq::<ErrorTag>::empty(),
            r.source_location matches Some(l) && l@ == location_text("Error1"@),
            r.message@ == "foo"@,
    {
        ClassifiedError {
            category: Some(Category::User),
            typ: None,
            tags: Vec::new(),
            source_location: Some(location_of("Error1")),
            message: String::from_str("foo"),
        }
    }
}

/// An infrastructure error typed as a failed action command.
#[derive(Debug)]
pub struct Error2(pub (), pub ());

impl Error2 {
    pub fn into_error(self) -> (r: ClassifiedError)
        ensures
            r.category == Some(Category::Infra),
            r.typ == Some(ErrorType::ActionCommandFailure),
            r.tags@ == Seq::<ErrorTag>::empty(),
            r.source_location matches Some(l) && l@ == location_text("Error2"@),
            r.message@ == "foo"@,
    {
        ClassifiedError {
            category: Some(Category::Infra),
            typ: Some(ErrorType::ActionCommandFailure),
            tags: Vec::new(),
            source_location: Some(location_of("Error2")),
            message: String::from_str("foo"),
        }
    }
}

/// Variants classified differently: a typed user error, a bare
/// infrastructure error, and an unclassified one.
#[derive(Debug)]
pub enum Error3 {
    VariantA,
    VariantB,
    VariantC,
}

impl Error3 {
    pub fn into_error(self) -> (r: ClassifiedError)
        ensures
            r.category == match self {
                Error3::VariantA => Some(Category::User),
                Error3::VariantB => Some(Category::Infra),
                Error3::VariantC => None::<Category>,
            },
            r.typ == match self {
                Error3::VariantA => Some(ErrorType::DaemonIsBusy),
                Error3::VariantB => None::<ErrorType>,
                Error3::VariantC => None::<ErrorType>,
            },
            r.tags@ == Seq::<ErrorTag>::empty(),
            r.source_location matches Some(l) && l@ == match self {
                Error3::VariantA => location_text("Error3::VariantA"@),
                Error3::VariantB => location_text("Error3::VariantB"@),
                Error3::VariantC => location_text("Error3::VariantC"@),
            },
            r.message@ == match self {
                Error3::VariantA => "foo"@,
                Error3::VariantB => "bar"@,
                Error3::VariantC => "baz"@,
            },
    {
        match self {
            Error3::VariantA => ClassifiedError {
                category: Some(Category::User),
                typ: Some(ErrorType::DaemonIsBusy),
                tags: Vec::new(),
                source_location: Some(location_of("Error3::VariantA")),
                message: String::from_str("foo"),
            },
            Error3::VariantB => ClassifiedError {
                category: Some(Category::Infra),
                typ: None,
                tags: Vec::new(),
                source_location: Some(location_of("Error3::VariantB")),
                message: String::from_str("bar"),
            },
            Error3::VariantC => ClassifiedError {
                category: None,
                typ: None,
                tags: Vec::new(),
                source_location: Some(location_of("Error3::VariantC")),
                message: String::from_str("baz"),
            },
        }
    }
}

/// An unclassified error generic over a carried value.
#[derive(Debug)]
pub struct GenericError<G>(pub G);

impl<G> GenericError<G> {
    pub fn into_error(self) -> (r: ClassifiedError)
        ensures
            r.category is None,
            r.typ is None,
            r.tags@ == Seq::<ErrorTag>::empty(),
            r.source_location matches Some(l) && l@ == location_text("GenericError"@),
            r.message@ == "Generic error"@,
    {
        ClassifiedError {
            category: None,
            typ: None,
            tags: Vec::new(),
            source_location: Some(location_of("GenericError")),
            message: String::from_str("Generic error"),
        }
    }
}

/// An unclassified error with a field.
#[derive(Debug)]
pub struct WithField {
    pub x: u8,
}

impl WithField {
    pub fn into_error(self) -> (r: ClassifiedError)
        ensures
            r.category is None,
            r.typ is None,
            r.tags@ == Seq::<ErrorTag>::empty(),
            r.source_location matches Some(l) && l@ == location_text("WithField"@),
            r.message@ == "Unused"@,
    {
        ClassifiedError {
            category: None,
            typ: None,
            tags: Vec::new(),
            source_location: Some(location_of("WithField")),
            message: String::from_str("Unused"),
        }
    }
}

/// An error declared with no classification at all.
#[derive(Debug)]
pub struct NoAttrsStruct;

impl NoAttrsStruct {
    pub fn into_error(self) -> (r: ClassifiedError)
        ensures
            r.category is None,
            r.typ is None,
            r.tags@ == Seq::<ErrorTag>::empty(),
            r.source_location matches Some(l) && l@ == location_text("NoAttrsStruct"@),
            r.message@ == "Unused"@,
    {
        ClassifiedError {
            category: None,
            typ: None,
            tags: Vec::new(),
            source_location: Some(location_of("NoAttrsStruct")),
            message: String::from_str("Unused"),
        }
    }
}

/// An unclassified error enum; the location records the variant.
#[derive(Debug)]
pub enum NoAttrsEnum {
    Variant,
}

impl NoAttrsEnum {
    pub fn into_error(self) -> (r: ClassifiedError)
        ensures
            r.category is None,
            r.typ is None,
            r.tags@ == Seq::<ErrorTag>::empty(),
            r.source_location matches Some(l) && l@ == location_text("NoAttrsEnum::Variant"@),
            r.message@ == "Unused"@,
    {
        ClassifiedError {
            category: None,
            typ: None,
            tags: Vec::new(),
            source_location: Some(location_of("NoAttrsEnum::Variant")),
            message: String::from_str("Unused"),
        }
    }
}

/// A user-caused error enum whose classification sits on the type.
#[derive(Debug)]
pub enum EnumWithTypeOption {
    Variant,
}

impl EnumWithTypeOption {
    pub fn into_error(self) -> (r: ClassifiedError)
        ensures
            r.category == Some(Category::User),
            r.typ is None,
            r.tags@ == Seq::<ErrorTag>::empty(),
            r.source_location matches Some(l) && l@ == location_text(
                "EnumWithTypeOption::Variant"@,
            ),
            r.message@ == "Unused"@,
    {
        ClassifiedError {
            category: Some(Category::User),
            typ: None,
            tags: Vec::new(),
            source_location: Some(location_of("EnumWithTypeOption::Variant")),
            message: String::from_str("Unused"),
        }
    }
}

/// A user-caused error whose category is written out in full.
#[derive(Debug)]
pub struct ErrorWithSpelledOutCategory;

impl ErrorWithSpelledOutCategory {
    pub fn into_error(self) -> (r: ClassifiedError)
        ensures
            r.category == Some(Category::User),
            r.typ is None,
            r.tags@ == Seq::<ErrorTag>::empty(),
            r.source_location matches Some(l) && l@ == location_text(
                "ErrorWithSpelledOutCategory"@,
            ),
            r.message@ == "Unused"@,
    {
        ClassifiedError {
            category: Some(Category::User),
            typ: None,
            tags: Vec::new(),
            source_location: Some(location_of("ErrorWithSpelledOutCategory")),
            message: String::from_str("Unused"),
        }
    }
}

/// An error whose category and type are computed from the value rather
/// than written down.
#[derive(Clone, Copy, PartialEq, Eq, Structural, Debug)]
pub enum ComputedOptionsError {
    A,
    B(bool),
}

/// The type computed for [`ComputedOptionsError::A`].
pub fn compute_type_a() -> (r: Option<ErrorType>)
    ensures
        r == Some(ErrorType::Watchman),
{
    Some(ErrorType::Watchman)
}

/// The type computed for [`ComputedOptionsError::B`].
pub fn compute_typ_b(val: bool) -> (r: Option<ErrorType>)
    ensures
        r == if val {
            None::<ErrorType>
        } else {
            Some(ErrorType::DaemonIsBusy)
        },
{
    if val {
        None
    } else {
        Some(ErrorType::DaemonIsBusy)
    }
}

impl ComputedOptionsError {
    pub fn compute_category(&self) -> (r: Option<Category>)
        ensures
            r == match *self {
                ComputedOptionsError::A => Some(Category::User),
                ComputedOptionsError::B(_) => Some(Category::Infra),
            },
    {
        match self {
            ComputedOptionsError::A => Some(Category::User),
            ComputedOptionsError::B(_) => Some(Category::Infra),
        }
    }

    pub fn into_error(self) -> (r: ClassifiedError)
        ensures
            r.category == match self {
                ComputedOptionsError::A => Some(Category::User),
                ComputedOptionsError::B(_) => Some(Category::Infra),
            },
            r.typ == match self {
                ComputedOptionsError::A => Some(ErrorType::Watchman),
                ComputedOptionsError::B(b) => if b {
                    None::<ErrorType>
                } else {
                    Some(ErrorType::DaemonIsBusy)
                },
            },
            r.tags@ == Seq::<ErrorTag>::empty(),
            r.source_location matches Some(l) && l@ == match self {
                ComputedOptionsError::A => location_text("ComputedOptionsError::A"@),
                ComputedOptionsError::B(_) => location_text("ComputedOptionsError::B"@),
            },
            r.message@ == "Unused"@,
    {
        let category = self.compute_category();
        let typ = match self {
            ComputedOptionsError::A => compute_type_a(),
            ComputedOptionsError::B(b) => compute_typ_b(b),
        };
        let source_location = match self {
            ComputedOptionsError::A => Some(location_of("ComputedOptionsError::A")),
            ComputedOptionsError::B(_) => Some(location_of("ComputedOptionsError::B")),
        };
        ClassifiedError {
            category,
            typ,
            tags: Vec::new(),
            source_location,
            message: String::from_str("Unused"),
        }
    }
}

/// An infrastructure-side error typed as a watchman failure.
#[derive(Debug)]
pub struct WatchmanError;

impl WatchmanError {
    pub fn into_error(self) -> (r: ClassifiedError)
        ensures
            r.category is None,
            r.typ == Some(ErrorType::Watchman),
            r.tags@ == Seq::<ErrorTag>::empty(),
            r.source_location matches Some(l) && l@ == location_text("WatchmanError"@),
            r.message@ == "Unused"@,
    {
        ClassifiedError {
            category: None,
            typ: Some(ErrorType::Watchman),
            tags: Vec::new(),
            source_location: Some(location_of("WatchmanError")),
            message: String::from_str("Unused"),
        }
    }
}

/// An error whose type comes from its wrapped source when there is one,
/// and is computed from the variant otherwise.
#[derive(Debug)]
pub enum MaybeWatchmanError {
    Wrapped(WatchmanError),
    Bare,
}

impl MaybeWatchmanError {
    pub fn into_error(self) -> (r: ClassifiedError)
        ensures
            r.category is None,
            r.typ == match self {
                MaybeWatchmanError::Wrapped(_) => Some(ErrorType::Watchman),
                MaybeWatchmanError::Bare => Some(ErrorType::DaemonIsBusy),
            },
            r.tags@ == Seq::<ErrorTag>::empty(),
            r.source_location is Some,
            r.message@ == "Unused"@,
    {
        match self {
            // The wrapped source's own type wins over the computed one.
            MaybeWatchmanError::Wrapped(source) => ClassifiedError {
                source_location: Some(location_of("MaybeWatchmanError::Wrapped")),
                ..source.into_error()
            },
            MaybeWatchmanError::Bare => ClassifiedError {
                category: None,
                typ: Some(ErrorType::DaemonIsBusy),
                tags: Vec::new(),
                source_location: Some(location_of("MaybeWatchmanError::Bare")),
                message: String::from_str("Unused"),
            },
        }
    }
}

/// An error tagged at the type level, with one variant adding a computed
/// tag of its own.
#[derive(Clone, Copy, PartialEq, Eq, Structural, Debug)]
pub enum TaggedError {
    A,
    B,
}

impl TaggedError {
    pub fn into_error(self) -> (r: ClassifiedError)
        ensures
            r.category is None,
            r.typ is None,
            r.tags@ == match self {
                TaggedError::A => seq![ErrorTag::StarlarkFail, ErrorTag::WatchmanTimeout],
                TaggedError::B => seq![ErrorTag::WatchmanTimeout],
            },
            r.source_location is Some,
            r.message@ == "Unused"@,
    {
        let mut tags: Vec<ErrorTag> = Vec::new();
        let source_location = match self {
            TaggedError::A => {
                tags.push(ErrorTag::StarlarkFail);
                tags.push(ErrorTag::WatchmanTimeout);
                proof {
                    assert(tags@ =~= seq![ErrorTag::StarlarkFail, ErrorTag::WatchmanTimeout]);
                }
                Some(location_of("TaggedError::A"))
            },
            TaggedError::B => {
                tags.push(ErrorTag::WatchmanTimeout);
                proof {
                    assert(tags@ =~= seq![ErrorTag::WatchmanTimeout]);
                }
                Some(location_of("TaggedError::B"))
            },
        };
        ClassifiedError {
            category: None,
            typ: None,
            tags,
            source_location,
            message: String::from_str("Unused"),
        }
    }
}

#[verifier::external_type_specification]
#[verifier::external_body]
pub struct ExAnyhowError(anyhow::Error);

/// Relies on `anyhow::Error::msg`: constructs an error whose payload is
/// the given text.
#[verifier::external_body]
fn anyhow_from_message(s: String) -> anyhow::Error {
    anyhow::Error::msg(s)
}

/// Relies on `anyhow::Error::downcast_ref`: recovers the text that
/// `anyhow::Error::msg` wrapped, if this error holds one.
#[verifier::external_body]
fn anyhow_message(e: &anyhow::Error) -> Option<String> {
    e.downcast_ref::<String>().cloned()
}

} // verus!
