use vstd::prelude::*;

use crate::isp::ISP;
use vstd::std_specs::cmp::PartialEqSpec;

verus! {

/// A row of the `asns` table: one autonomous system, keyed by its number.
#[derive(Debug)]
pub struct Model {
    /// Milliseconds since the Unix epoch of the last write of this row.
    pub updated_at: i64,
    pub id: i64,
    /// The AS number, as the decimal digits that follow `AS`.
    pub number: String,
    pub name: String,
    pub isp: ISP,
}

/// The mathematical value of a [`Model`].
pub struct ModelView {
    pub updated_at: i64,
    pub id: i64,
    pub number: Seq<char>,
    pub name: Seq<char>,
    pub isp: ISP,
}

impl View for Model {
    type V = ModelView;

    open spec fn view(&self) -> ModelView {
        ModelView {
            updated_at: self.updated_at,
            id: self.id,
            number: self.number@,
            name: self.name@,
            isp: self.isp,
        }
    }
}

/// The views of a sequence of rows.
pub open spec fn model_views(s: Seq<Model>) -> Seq<ModelView> {
    s.map_values(|m: Model| m@)
}

/// The empty row: no number, no name, ISP `OTHER`, zero timestamps.
pub open spec fn default_model_view() -> ModelView {
    ModelView {
        updated_at: 0,
        id: 0,
        number: Seq::empty(),
        name: Seq::empty(),
        isp: ISP::OTHER,
    }
}

impl Model {
    /// A row with the given number, name and ISP, all other fields default.
    pub fn with_fields(number: String, name: String, isp: ISP) -> (r: Model)
        ensures
            r@ == (ModelView { number: number@, name: name@, isp, ..default_model_view() }),
    {
        Model { updated_at: 0, id: 0, number, name, isp }
    }
}

impl Default for Model {
    fn default() -> (r: Model)
        ensures
            r@ == default_model_view(),
    {
        Model { updated_at: 0, id: 0, number: String::new(), name: String::new(), isp: ISP::OTHER }
    }
}

impl Clone for Model {
    fn clone(&self) -> (r: Model)
        ensures
            r == *self,
    {
        Model {
            updated_at: self.updated_at,
            id: self.id,
            number: self.number.clone(),
            name: self.name.clone(),
            isp: self.isp,
        }
    }
}

/// Two rows are the same autonomous system when their numbers agree;
/// the other fields are not compared.
impl PartialEq for Model {
    fn eq(&self, other: &Model) -> (r: bool) {
        self.number == other.number
    }
}

impl vstd::std_specs::cmp::PartialEqSpecImpl for Model {
    open spec fn obeys_eq_spec() -> bool {
        true
    }

    open spec fn eq_spec(&self, other: &Model) -> bool {
        self.number@ == other.number@
    }
}

impl Eq for Model {
}

/// `String`'s `Hash::hash` feeds the string to the hasher. Nothing is
/// claimed of it: what it does to the hasher's state is not stated.
pub assume_specification<H: std::hash::Hasher>[<String as std::hash::Hash>::hash::<H>](
    s: &String,
    state: &mut H,
);

/// A row hashes as its number, so equal rows hash alike.
impl std::hash::Hash for Model {
    fn hash<H: std::hash::Hasher>(&self, state: &mut H) {
        self.number.hash(state);
    }
}

/// An autonomous system as the D1-backed service stores and serves it.
#[derive(Debug)]
pub struct ASN {
    pub number: String,
    pub name: String,
    pub isp: ISP,
}

/// The mathematical value of an [`ASN`].
pub struct AsnView {
    pub number: Seq<char>,
    pub name: Seq<char>,
    pub isp: ISP,
}

impl View for ASN {
    type V = AsnView;

    open spec fn view(&self) -> AsnView {
        AsnView { number: self.number@, name: self.name@, isp: self.isp }
    }
}

/// The views of a sequence of ASNs.
pub open spec fn asn_views(s: Seq<ASN>) -> Seq<AsnView> {
    s.map_values(|a: ASN| a@)
}

impl Clone for ASN {
    fn clone(&self) -> (r: ASN)
        ensures
            r == *self,
    {
        ASN { number: self.number.clone(), name: self.name.clone(), isp: self.isp }
    }
}

/// Two ASNs are equal when their numbers agree.
impl PartialEq for ASN {
    fn eq(&self, other: &ASN) -> (r: bool) {
        self.number == other.number
    }
}

impl vstd::std_specs::cmp::PartialEqSpecImpl for ASN {
    open spec fn obeys_eq_spec() -> bool {
        true
    }

    open spec fn eq_spec(&self, other: &ASN) -> bool {
        self.number@ == other.number@
    }
}

impl Eq for ASN {
}

/// An AS hashes as its number, so equal ASes hash alike.
impl std::hash::Hash for ASN {
    fn hash<H: std::hash::Hasher>(&self, state: &mut H) {
        self.number.hash(state);
    }
}

/// Equality of rows is an equivalence relation, and it holds exactly when the
/// numbers agree, whatever the names, ISPs and timestamps.
pub proof fn lemma_model_eq_is_equivalence(a: Model, b: Model, c: Model)
    ensures
        a.eq_spec(&a),
        a.eq_spec(&b) == b.eq_spec(&a),
        a.eq_spec(&b) && b.eq_spec(&c) ==> a.eq_spec(&c),
        a.eq_spec(&b) <==> a@.number == b@.number,
{
}

/// Equality of ASNs is an equivalence relation that compares numbers only.
pub proof fn lemma_asn_eq_is_equivalence(a: ASN, b: ASN, c: ASN)
    ensures
        a.eq_spec(&a),
        a.eq_spec(&b) == b.eq_spec(&a),
        a.eq_spec(&b) && b.eq_spec(&c) ==> a.eq_spec(&c),
        a.eq_spec(&b) <==> a@.number == b@.number,
{
}

} // verus!
