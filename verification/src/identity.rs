//! Typed, prefixed identifiers and the verification digest type.
use crate::bounds::ID_CHARS;
use crate::digest::{is_sha256_text, valid_sha256};
use crate::text::{chars_of, chars_start_with, owned, push_str};
use vstd::prelude::*;

verus! {

/// Why an identifier was rejected.
#[derive(Debug, Clone, PartialEq, Eq)]
pub enum IdError {
    /// Empty, or longer than `ID_CHARS`.
    Length,
    /// Does not start with the type's prefix.
    Prefix { expected: &'static str },
    /// A character after the prefix is not an ASCII letter, digit, `-` or `_`.
    Character,
}

/// The displayed message of an identifier error.
pub open spec fn id_message(e: IdError) -> Seq<char> {
    match e {
        IdError::Length => "identifier is empty or too long"@,
        IdError::Prefix { expected } => "identifier must start with "@ + expected@,
        IdError::Character => "identifier contains an invalid character"@,
    }
}

impl IdError {
    /// Human readable message (see `id_message`).
    pub fn message(&self) -> (m: String)
        ensures
            m@ == id_message(*self),
    {
        match self {
            IdError::Length => owned("identifier is empty or too long"),
            IdError::Prefix { expected } => {
                let mut m = owned("identifier must start with ");
                push_str(&mut m, expected);
                m
            },
            IdError::Character => owned("identifier contains an invalid character"),
        }
    }
}

/// Characters allowed after an identifier prefix.
pub open spec fn is_id_char(c: char) -> bool {
    ('a' <= c && c <= 'z') || ('A' <= c && c <= 'Z') || ('0' <= c && c <= '9') || c == '-' || c == '_'
}

/// A valid identifier with the given prefix.
pub open spec fn valid_id(s: Seq<char>, prefix: Seq<char>) -> bool {
    &&& 0 < s.len() <= ID_CHARS
    &&& crate::text::starts_with(s, prefix)
    &&& forall|i: int| prefix.len() <= i < s.len() ==> is_id_char(#[trigger] s[i])
}

/// The error that identifier parsing reports, checked in order: length,
/// prefix, characters.
pub open spec fn id_error(s: Seq<char>, prefix: &'static str) -> Option<IdError> {
    if !(0 < s.len() <= ID_CHARS) {
        Some(IdError::Length)
    } else if !crate::text::starts_with(s, prefix@) {
        Some(IdError::Prefix { expected: prefix })
    } else if !(forall|i: int| prefix@.len() <= i < s.len() ==> is_id_char(#[trigger] s[i])) {
        Some(IdError::Character)
    } else {
        None
    }
}

/// Validates an identifier text against a prefix.
pub fn parse_id(value: &str, prefix: &'static str) -> (r: Result<String, IdError>)
    ensures
        id_error(value@, prefix) is None <==> valid_id(value@, prefix@),
        match r {
            Ok(s) => s@ == value@ && valid_id(value@, prefix@),
            Err(e) => id_error(value@, prefix) == Some(e),
        },
{
    let cs = chars_of(value);
    if cs.len() == 0 || cs.len() > ID_CHARS {
        return Err(IdError::Length);
    }
    let p = chars_of(prefix);
    if !chars_start_with(&cs, &p) {
        return Err(IdError::Prefix { expected: prefix });
    }
    let mut i: usize = p.len();
    while i < cs.len()
        invariant
            p.len() <= i <= cs.len(),
            cs@ == value@,
            p@ == prefix@,
            0 < cs.len() <= ID_CHARS,
            crate::text::starts_with(cs@, p@),
            forall|k: int| p@.len() <= k < i ==> is_id_char(#[trigger] cs@[k]),
        decreases cs.len() - i,
    {
        let c = cs[i];
        if !(('a' <= c && c <= 'z') || ('A' <= c && c <= 'Z') || ('0' <= c && c <= '9') || c == '-'
            || c == '_') {
            assert(!is_id_char(value@[i as int]));
            assert(!(forall|k: int| prefix@.len() <= k < value@.len() ==> is_id_char(#[trigger] value@[k])));
            assert(0 < value@.len() <= ID_CHARS);
            assert(crate::text::starts_with(value@, prefix@));
            assert(id_error(value@, prefix) == Some(IdError::Character));
            return Err(IdError::Character);
        }
        i = i + 1;
    }
    Ok(owned(value))
}

/// Calls `uuid::Uuid::new_v4` and formats it as 32 lowercase hex digits.
/// Trusted: the text is 32 characters, each a lowercase hex digit (the
/// `simple` format); which ones is random.
#[verifier::external_body]
fn random_hex32() -> (r: String)
    ensures
        r@.len() == 32,
        forall|i: int| 0 <= i < 32 ==> crate::digest::is_lower_hex(#[trigger] r@[i]),
{
    format!("{}", uuid::Uuid::new_v4().simple())
}

/// A fresh identifier: the prefix and 32 random lowercase hex digits.
pub fn generate_id(prefix: &'static str) -> (r: String)
    requires
        prefix@.len() <= 64,
    ensures
        valid_id(r@, prefix@),
        r@.len() == prefix@.len() + 32,
{
    let mut s = owned(prefix);
    let h = random_hex32();
    push_str(&mut s, h.as_str());
    assert(s@.take(prefix@.len() as int) =~= prefix@);
    assert forall|i: int| prefix@.len() <= i < s@.len() implies is_id_char(#[trigger] s@[i]) by {
        assert(s@[i] == h@[i - prefix@.len()]);
        assert(crate::digest::is_lower_hex(h@[i - prefix@.len()]));
    }
    s
}

/// Identifiers of a typed kind.
pub trait TypedId: Sized + View<V = Seq<char>> {
    /// The identifier prefix.
    spec fn prefix_spec() -> Seq<char>;

    /// The identifier text.
    fn as_str(&self) -> (r: &str)
        ensures
            r@ == self@,
    ;

    /// Parses and validates an identifier.
    fn parse(value: &str) -> (r: Result<Self, IdError>)
        ensures
            r is Ok <==> valid_id(value@, Self::prefix_spec()),
            r matches Ok(id) ==> id@ == value@,
    ;

    /// A fresh random identifier.
    fn generate() -> (r: Self)
        ensures
            valid_id(r@, Self::prefix_spec()),
    ;
}

/// A plan identifier: `ep_` followed by ASCII letters, digits, `-` or `_`.
#[derive(Debug, Clone, PartialEq, Eq, PartialOrd, Ord, Hash)]
pub struct PlanId(String);

impl View for PlanId {
    type V = Seq<char>;

    closed spec fn view(&self) -> Seq<char> {
        self.0@
    }
}

impl PlanId {
    /// Parses and validates an identifier.
    pub fn new(value: &str) -> (r: Result<PlanId, IdError>)
        ensures
            match r {
                Ok(id) => id@ == value@ && valid_id(value@, "ep_"@),
                Err(e) => id_error(value@, "ep_") == Some(e),
            },
    {
        match parse_id(value, "ep_") {
            Ok(s) => Ok(PlanId(s)),
            Err(e) => Err(e),
        }
    }

    /// A fresh random identifier.
    pub fn generate() -> (r: PlanId)
        ensures
            valid_id(r@, "ep_"@),
    {
        proof {
            reveal_strlit("ep_");
        }
        PlanId(generate_id("ep_"))
    }

    /// The identifier text.
    pub fn as_str(&self) -> (r: &str)
        ensures
            r@ == self@,
    {
        self.0.as_str()
    }

    /// The identifier as an owned string.
    pub fn to_string(&self) -> (r: String)
        ensures
            r@ == self@,
    {
        self.0.clone()
    }

    /// A copy of this identifier.
    pub fn duplicate(&self) -> (r: PlanId)
        ensures
            r == *self,
    {
        PlanId(self.0.clone())
    }

    /// Equality of identifiers.
    pub fn same(&self, other: &PlanId) -> (r: bool)
        ensures
            r == (self@ == other@),
    {
        self.0 == other.0
    }

    /// Three-way order of identifiers by their text.
    pub fn order(&self, other: &PlanId) -> (r: i8)
        ensures
            r == -1 <==> crate::text::seq_lt(self@, other@),
            r == 0 <==> self@ == other@,
            r == 1 <==> crate::text::seq_lt(other@, self@),
            r == -1 || r == 0 || r == 1,
    {
        crate::text::str_order(self.0.as_str(), other.0.as_str())
    }

}

impl TypedId for PlanId {
    open spec fn prefix_spec() -> Seq<char> {
        "ep_"@
    }

    fn as_str(&self) -> (r: &str) {
        self.0.as_str()
    }

    fn parse(value: &str) -> (r: Result<Self, IdError>) {
        PlanId::new(value)
    }

    fn generate() -> (r: Self) {
        PlanId::generate()
    }
}

impl core::str::FromStr for PlanId {
    type Err = IdError;

    fn from_str(value: &str) -> (r: Result<Self, Self::Err>)
        ensures
            match r {
                Ok(id) => id@ == value@ && valid_id(value@, "ep_"@),
                Err(e) => id_error(value@, "ep_") == Some(e),
            },
    {
        PlanId::new(value)
    }
}

/// A plan item identifier (`epi_`).
#[derive(Debug, Clone, PartialEq, Eq, PartialOrd, Ord, Hash)]
pub struct PlanItemId(String);

impl View for PlanItemId {
    type V = Seq<char>;

    closed spec fn view(&self) -> Seq<char> {
        self.0@
    }
}

impl PlanItemId {
    /// Parses and validates an identifier.
    pub fn new(value: &str) -> (r: Result<PlanItemId, IdError>)
        ensures
            match r {
                Ok(id) => id@ == value@ && valid_id(value@, "epi_"@),
                Err(e) => id_error(value@, "epi_") == Some(e),
            },
    {
        match parse_id(value, "epi_") {
            Ok(s) => Ok(PlanItemId(s)),
            Err(e) => Err(e),
        }
    }

    /// A fresh random identifier.
    pub fn generate() -> (r: PlanItemId)
        ensures
            valid_id(r@, "epi_"@),
    {
        proof {
            reveal_strlit("epi_");
        }
        PlanItemId(generate_id("epi_"))
    }

    /// The identifier text.
    pub fn as_str(&self) -> (r: &str)
        ensures
            r@ == self@,
    {
        self.0.as_str()
    }

    /// The identifier as an owned string.
    pub fn to_string(&self) -> (r: String)
        ensures
            r@ == self@,
    {
        self.0.clone()
    }

    /// A copy of this identifier.
    pub fn duplicate(&self) -> (r: PlanItemId)
        ensures
            r == *self,
    {
        PlanItemId(self.0.clone())
    }

    /// Equality of identifiers.
    pub fn same(&self, other: &PlanItemId) -> (r: bool)
        ensures
            r == (self@ == other@),
    {
        self.0 == other.0
    }

    /// Three-way order of identifiers by their text.
    pub fn order(&self, other: &PlanItemId) -> (r: i8)
        ensures
            r == -1 <==> crate::text::seq_lt(self@, other@),
            r == 0 <==> self@ == other@,
            r == 1 <==> crate::text::seq_lt(other@, self@),
            r == -1 || r == 0 || r == 1,
    {
        crate::text::str_order(self.0.as_str(), other.0.as_str())
    }

}

impl TypedId for PlanItemId {
    open spec fn prefix_spec() -> Seq<char> {
        "epi_"@
    }

    fn as_str(&self) -> (r: &str) {
        self.0.as_str()
    }

    fn parse(value: &str) -> (r: Result<Self, IdError>) {
        PlanItemId::new(value)
    }

    fn generate() -> (r: Self) {
        PlanItemId::generate()
    }
}

impl core::str::FromStr for PlanItemId {
    type Err = IdError;

    fn from_str(value: &str) -> (r: Result<Self, Self::Err>)
        ensures
            match r {
                Ok(id) => id@ == value@ && valid_id(value@, "epi_"@),
                Err(e) => id_error(value@, "epi_") == Some(e),
            },
    {
        PlanItemId::new(value)
    }
}

/// An acceptance criterion identifier (`epc_`).
#[derive(Debug, Clone, PartialEq, Eq, PartialOrd, Ord, Hash)]
pub struct CriterionId(String);

impl View for CriterionId {
    type V = Seq<char>;

    closed spec fn view(&self) -> Seq<char> {
        self.0@
    }
}

impl CriterionId {
    /// Parses and validates an identifier.
    pub fn new(value: &str) -> (r: Result<CriterionId, IdError>)
        ensures
            match r {
                Ok(id) => id@ == value@ && valid_id(value@, "epc_"@),
                Err(e) => id_error(value@, "epc_") == Some(e),
            },
    {
        match parse_id(value, "epc_") {
            Ok(s) => Ok(CriterionId(s)),
            Err(e) => Err(e),
        }
    }

    /// A fresh random identifier.
    pub fn generate() -> (r: CriterionId)
        ensures
            valid_id(r@, "epc_"@),
    {
        proof {
            reveal_strlit("epc_");
        }
        CriterionId(generate_id("epc_"))
    }

    /// The identifier text.
    pub fn as_str(&self) -> (r: &str)
        ensures
            r@ == self@,
    {
        self.0.as_str()
    }

    /// The identifier as an owned string.
    pub fn to_string(&self) -> (r: String)
        ensures
            r@ == self@,
    {
        self.0.clone()
    }

    /// A copy of this identifier.
    pub fn duplicate(&self) -> (r: CriterionId)
        ensures
            r == *self,
    {
        CriterionId(self.0.clone())
    }

    /// Equality of identifiers.
    pub fn same(&self, other: &CriterionId) -> (r: bool)
        ensures
            r == (self@ == other@),
    {
        self.0 == other.0
    }

    /// Three-way order of identifiers by their text.
    pub fn order(&self, other: &CriterionId) -> (r: i8)
        ensures
            r == -1 <==> crate::text::seq_lt(self@, other@),
            r == 0 <==> self@ == other@,
            r == 1 <==> crate::text::seq_lt(other@, self@),
            r == -1 || r == 0 || r == 1,
    {
        crate::text::str_order(self.0.as_str(), other.0.as_str())
    }

}

impl TypedId for CriterionId {
    open spec fn prefix_spec() -> Seq<char> {
        "epc_"@
    }

    fn as_str(&self) -> (r: &str) {
        self.0.as_str()
    }

    fn parse(value: &str) -> (r: Result<Self, IdError>) {
        CriterionId::new(value)
    }

    fn generate() -> (r: Self) {
        CriterionId::generate()
    }
}

impl core::str::FromStr for CriterionId {
    type Err = IdError;

    fn from_str(value: &str) -> (r: Result<Self, Self::Err>)
        ensures
            match r {
                Ok(id) => id@ == value@ && valid_id(value@, "epc_"@),
                Err(e) => id_error(value@, "epc_") == Some(e),
            },
    {
        CriterionId::new(value)
    }
}

/// An evidence provider identifier (`epp_`).
#[derive(Debug, Clone, PartialEq, Eq, PartialOrd, Ord, Hash)]
pub struct EvidenceProviderId(String);

impl View for EvidenceProviderId {
    type V = Seq<char>;

    closed spec fn view(&self) -> Seq<char> {
        self.0@
    }
}

impl EvidenceProviderId {
    /// Parses and validates an identifier.
    pub fn new(value: &str) -> (r: Result<EvidenceProviderId, IdError>)
        ensures
            match r {
                Ok(id) => id@ == value@ && valid_id(value@, "epp_"@),
                Err(e) => id_error(value@, "epp_") == Some(e),
            },
    {
        match parse_id(value, "epp_") {
            Ok(s) => Ok(EvidenceProviderId(s)),
            Err(e) => Err(e),
        }
    }

    /// A fresh random identifier.
    pub fn generate() -> (r: EvidenceProviderId)
        ensures
            valid_id(r@, "epp_"@),
    {
        proof {
            reveal_strlit("epp_");
        }
        EvidenceProviderId(generate_id("epp_"))
    }

    /// The identifier text.
    pub fn as_str(&self) -> (r: &str)
        ensures
            r@ == self@,
    {
        self.0.as_str()
    }

    /// The identifier as an owned string.
    pub fn to_string(&self) -> (r: String)
        ensures
            r@ == self@,
    {
        self.0.clone()
    }

    /// A copy of this identifier.
    pub fn duplicate(&self) -> (r: EvidenceProviderId)
        ensures
            r == *self,
    {
        EvidenceProviderId(self.0.clone())
    }

    /// Equality of identifiers.
    pub fn same(&self, other: &EvidenceProviderId) -> (r: bool)
        ensures
            r == (self@ == other@),
    {
        self.0 == other.0
    }

    /// Three-way order of identifiers by their text.
    pub fn order(&self, other: &EvidenceProviderId) -> (r: i8)
        ensures
            r == -1 <==> crate::text::seq_lt(self@, other@),
            r == 0 <==> self@ == other@,
            r == 1 <==> crate::text::seq_lt(other@, self@),
            r == -1 || r == 0 || r == 1,
    {
        crate::text::str_order(self.0.as_str(), other.0.as_str())
    }

}

impl TypedId for EvidenceProviderId {
    open spec fn prefix_spec() -> Seq<char> {
        "epp_"@
    }

    fn as_str(&self) -> (r: &str) {
        self.0.as_str()
    }

    fn parse(value: &str) -> (r: Result<Self, IdError>) {
        EvidenceProviderId::new(value)
    }

    fn generate() -> (r: Self) {
        EvidenceProviderId::generate()
    }
}

impl core::str::FromStr for EvidenceProviderId {
    type Err = IdError;

    fn from_str(value: &str) -> (r: Result<Self, Self::Err>)
        ensures
            match r {
                Ok(id) => id@ == value@ && valid_id(value@, "epp_"@),
                Err(e) => id_error(value@, "epp_") == Some(e),
            },
    {
        EvidenceProviderId::new(value)
    }
}

/// An evidence observation identifier (`epe_`).
#[derive(Debug, Clone, PartialEq, Eq, PartialOrd, Ord, Hash)]
pub struct EvidenceObservationId(String);

impl View for EvidenceObservationId {
    type V = Seq<char>;

    closed spec fn view(&self) -> Seq<char> {
        self.0@
    }
}

impl EvidenceObservationId {
    /// Parses and validates an identifier.
    pub fn new(value: &str) -> (r: Result<EvidenceObservationId, IdError>)
        ensures
            match r {
                Ok(id) => id@ == value@ && valid_id(value@, "epe_"@),
                Err(e) => id_error(value@, "epe_") == Some(e),
            },
    {
        match parse_id(value, "epe_") {
            Ok(s) => Ok(EvidenceObservationId(s)),
            Err(e) => Err(e),
        }
    }

    /// A fresh random identifier.
    pub fn generate() -> (r: EvidenceObservationId)
        ensures
            valid_id(r@, "epe_"@),
    {
        proof {
            reveal_strlit("epe_");
        }
        EvidenceObservationId(generate_id("epe_"))
    }

    /// The identifier text.
    pub fn as_str(&self) -> (r: &str)
        ensures
            r@ == self@,
    {
        self.0.as_str()
    }

    /// The identifier as an owned string.
    pub fn to_string(&self) -> (r: String)
        ensures
            r@ == self@,
    {
        self.0.clone()
    }

    /// A copy of this identifier.
    pub fn duplicate(&self) -> (r: EvidenceObservationId)
        ensures
            r == *self,
    {
        EvidenceObservationId(self.0.clone())
    }

    /// Equality of identifiers.
    pub fn same(&self, other: &EvidenceObservationId) -> (r: bool)
        ensures
            r == (self@ == other@),
    {
        self.0 == other.0
    }

    /// Three-way order of identifiers by their text.
    pub fn order(&self, other: &EvidenceObservationId) -> (r: i8)
        ensures
            r == -1 <==> crate::text::seq_lt(self@, other@),
            r == 0 <==> self@ == other@,
            r == 1 <==> crate::text::seq_lt(other@, self@),
            r == -1 || r == 0 || r == 1,
    {
        crate::text::str_order(self.0.as_str(), other.0.as_str())
    }

}

impl TypedId for EvidenceObservationId {
    open spec fn prefix_spec() -> Seq<char> {
        "epe_"@
    }

    fn as_str(&self) -> (r: &str) {
        self.0.as_str()
    }

    fn parse(value: &str) -> (r: Result<Self, IdError>) {
        EvidenceObservationId::new(value)
    }

    fn generate() -> (r: Self) {
        EvidenceObservationId::generate()
    }
}

impl core::str::FromStr for EvidenceObservationId {
    type Err = IdError;

    fn from_str(value: &str) -> (r: Result<Self, Self::Err>)
        ensures
            match r {
                Ok(id) => id@ == value@ && valid_id(value@, "epe_"@),
                Err(e) => id_error(value@, "epe_") == Some(e),
            },
    {
        EvidenceObservationId::new(value)
    }
}

/// An evidence supersession record identifier (`eps_`).
#[derive(Debug, Clone, PartialEq, Eq, PartialOrd, Ord, Hash)]
pub struct EvidenceSupersessionId(String);

impl View for EvidenceSupersessionId {
    type V = Seq<char>;

    closed spec fn view(&self) -> Seq<char> {
        self.0@
    }
}

impl EvidenceSupersessionId {
    /// Parses and validates an identifier.
    pub fn new(value: &str) -> (r: Result<EvidenceSupersessionId, IdError>)
        ensures
            match r {
                Ok(id) => id@ == value@ && valid_id(value@, "eps_"@),
                Err(e) => id_error(value@, "eps_") == Some(e),
            },
    {
        match parse_id(value, "eps_") {
            Ok(s) => Ok(EvidenceSupersessionId(s)),
            Err(e) => Err(e),
        }
    }

    /// A fresh random identifier.
    pub fn generate() -> (r: EvidenceSupersessionId)
        ensures
            valid_id(r@, "eps_"@),
    {
        proof {
            reveal_strlit("eps_");
        }
        EvidenceSupersessionId(generate_id("eps_"))
    }

    /// The identifier text.
    pub fn as_str(&self) -> (r: &str)
        ensures
            r@ == self@,
    {
        self.0.as_str()
    }

    /// The identifier as an owned string.
    pub fn to_string(&self) -> (r: String)
        ensures
            r@ == self@,
    {
        self.0.clone()
    }

    /// A copy of this identifier.
    pub fn duplicate(&self) -> (r: EvidenceSupersessionId)
        ensures
            r == *self,
    {
        EvidenceSupersessionId(self.0.clone())
    }

    /// Equality of identifiers.
    pub fn same(&self, other: &EvidenceSupersessionId) -> (r: bool)
        ensures
            r == (self@ == other@),
    {
        self.0 == other.0
    }

    /// Three-way order of identifiers by their text.
    pub fn order(&self, other: &EvidenceSupersessionId) -> (r: i8)
        ensures
            r == -1 <==> crate::text::seq_lt(self@, other@),
            r == 0 <==> self@ == other@,
            r == 1 <==> crate::text::seq_lt(other@, self@),
            r == -1 || r == 0 || r == 1,
    {
        crate::text::str_order(self.0.as_str(), other.0.as_str())
    }

}

impl TypedId for EvidenceSupersessionId {
    open spec fn prefix_spec() -> Seq<char> {
        "eps_"@
    }

    fn as_str(&self) -> (r: &str) {
        self.0.as_str()
    }

    fn parse(value: &str) -> (r: Result<Self, IdError>) {
        EvidenceSupersessionId::new(value)
    }

    fn generate() -> (r: Self) {
        EvidenceSupersessionId::generate()
    }
}

impl core::str::FromStr for EvidenceSupersessionId {
    type Err = IdError;

    fn from_str(value: &str) -> (r: Result<Self, Self::Err>)
        ensures
            match r {
                Ok(id) => id@ == value@ && valid_id(value@, "eps_"@),
                Err(e) => id_error(value@, "eps_") == Some(e),
            },
    {
        EvidenceSupersessionId::new(value)
    }
}

/// A closure record identifier (`epcl_`).
#[derive(Debug, Clone, PartialEq, Eq, PartialOrd, Ord, Hash)]
pub struct ClosureId(String);

impl View for ClosureId {
    type V = Seq<char>;

    closed spec fn view(&self) -> Seq<char> {
        self.0@
    }
}

impl ClosureId {
    /// Parses and validates an identifier.
    pub fn new(value: &str) -> (r: Result<ClosureId, IdError>)
        ensures
            match r {
                Ok(id) => id@ == value@ && valid_id(value@, "epcl_"@),
                Err(e) => id_error(value@, "epcl_") == Some(e),
            },
    {
        match parse_id(value, "epcl_") {
            Ok(s) => Ok(ClosureId(s)),
            Err(e) => Err(e),
        }
    }

    /// A fresh random identifier.
    pub fn generate() -> (r: ClosureId)
        ensures
            valid_id(r@, "epcl_"@),
    {
        proof {
            reveal_strlit("epcl_");
        }
        ClosureId(generate_id("epcl_"))
    }

    /// The identifier text.
    pub fn as_str(&self) -> (r: &str)
        ensures
            r@ == self@,
    {
        self.0.as_str()
    }

    /// The identifier as an owned string.
    pub fn to_string(&self) -> (r: String)
        ensures
            r@ == self@,
    {
        self.0.clone()
    }

    /// A copy of this identifier.
    pub fn duplicate(&self) -> (r: ClosureId)
        ensures
            r == *self,
    {
        ClosureId(self.0.clone())
    }

    /// Equality of identifiers.
    pub fn same(&self, other: &ClosureId) -> (r: bool)
        ensures
            r == (self@ == other@),
    {
        self.0 == other.0
    }

    /// Three-way order of identifiers by their text.
    pub fn order(&self, other: &ClosureId) -> (r: i8)
        ensures
            r == -1 <==> crate::text::seq_lt(self@, other@),
            r == 0 <==> self@ == other@,
            r == 1 <==> crate::text::seq_lt(other@, self@),
            r == -1 || r == 0 || r == 1,
    {
        crate::text::str_order(self.0.as_str(), other.0.as_str())
    }

}

impl TypedId for ClosureId {
    open spec fn prefix_spec() -> Seq<char> {
        "epcl_"@
    }

    fn as_str(&self) -> (r: &str) {
        self.0.as_str()
    }

    fn parse(value: &str) -> (r: Result<Self, IdError>) {
        ClosureId::new(value)
    }

    fn generate() -> (r: Self) {
        ClosureId::generate()
    }
}

impl core::str::FromStr for ClosureId {
    type Err = IdError;

    fn from_str(value: &str) -> (r: Result<Self, Self::Err>)
        ensures
            match r {
                Ok(id) => id@ == value@ && valid_id(value@, "epcl_"@),
                Err(e) => id_error(value@, "epcl_") == Some(e),
            },
    {
        ClosureId::new(value)
    }
}

/// The digest that binds evidence to an exact verification specification:
/// `sha256:` followed by 64 lowercase hex digits.
#[derive(Debug, Clone, PartialEq, Eq, PartialOrd, Ord, Hash)]
pub struct VerificationDigest(String);

impl View for VerificationDigest {
    type V = Seq<char>;

    closed spec fn view(&self) -> Seq<char> {
        self.0@
    }
}

impl VerificationDigest {
    /// Validates a digest text.
    pub fn new(value: &str) -> (r: Result<VerificationDigest, IdError>)
        ensures
            match r {
                Ok(d) => d@ == value@ && is_sha256_text(value@),
                Err(e) => !is_sha256_text(value@) && e == IdError::Character,
            },
    {
        if valid_sha256(value) {
            Ok(VerificationDigest(owned(value)))
        } else {
            Err(IdError::Character)
        }
    }

    /// The digest text.
    pub fn as_str(&self) -> (r: &str)
        ensures
            r@ == self@,
    {
        self.0.as_str()
    }

    /// The digest as an owned string.
    pub fn to_string(&self) -> (r: String)
        ensures
            r@ == self@,
    {
        self.0.clone()
    }

    /// A copy of this digest.
    pub fn duplicate(&self) -> (r: VerificationDigest)
        ensures
            r == *self,
    {
        VerificationDigest(self.0.clone())
    }

    /// Equality of digests.
    pub fn same(&self, other: &VerificationDigest) -> (r: bool)
        ensures
            r == (self@ == other@),
    {
        self.0 == other.0
    }
}

impl core::str::FromStr for VerificationDigest {
    type Err = IdError;

    fn from_str(value: &str) -> (r: Result<Self, Self::Err>)
        ensures
            match r {
                Ok(d) => d@ == value@ && is_sha256_text(value@),
                Err(e) => !is_sha256_text(value@) && e == IdError::Character,
            },
    {
        VerificationDigest::new(value)
    }
}

} // verus!
