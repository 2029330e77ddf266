//! Currency units of Cashu proofs.
use std::str::FromStr;
use vstd::prelude::*;

use crate::text::{debug_str, str_debug};

verus! {

/// Unit of the value a proof carries. For Proof-of-Power credentials this is
/// `Custom("pop_<unix_ts>")`, where `<unix_ts>` is the expiry of the credential.
#[derive(Debug, PartialEq, Eq)]
pub enum CurrencyUnit {
    /// Satoshi.
    Sat,
    /// Millisatoshi.
    Msat,
    /// US dollar.
    Usd,
    /// Euro.
    Eur,
    /// Authentication tokens.
    Auth,
    /// Any other unit, by name.
    Custom(String),
}

/// [`CurrencyUnit`] over sequences of characters.
pub enum UnitView {
    Sat,
    Msat,
    Usd,
    Eur,
    Auth,
    Custom(Seq<char>),
}

impl View for CurrencyUnit {
    type V = UnitView;

    open spec fn view(&self) -> UnitView {
        match *self {
            CurrencyUnit::Sat => UnitView::Sat,
            CurrencyUnit::Msat => UnitView::Msat,
            CurrencyUnit::Usd => UnitView::Usd,
            CurrencyUnit::Eur => UnitView::Eur,
            CurrencyUnit::Auth => UnitView::Auth,
            CurrencyUnit::Custom(name) => UnitView::Custom(name@),
        }
    }
}

impl Clone for CurrencyUnit {
    fn clone(&self) -> (r: Self)
        ensures
            r@ == self@,
    {
        match self {
            CurrencyUnit::Sat => CurrencyUnit::Sat,
            CurrencyUnit::Msat => CurrencyUnit::Msat,
            CurrencyUnit::Usd => CurrencyUnit::Usd,
            CurrencyUnit::Eur => CurrencyUnit::Eur,
            CurrencyUnit::Auth => CurrencyUnit::Auth,
            CurrencyUnit::Custom(name) => CurrencyUnit::Custom(name.clone()),
        }
    }
}

impl UnitView {
    /// The unit as it stands in diagnostics: the variant, and the quoted name of a custom unit.
    pub open spec fn debug(self) -> Seq<char> {
        match self {
            UnitView::Sat => "Sat"@,
            UnitView::Msat => "Msat"@,
            UnitView::Usd => "Usd"@,
            UnitView::Eur => "Eur"@,
            UnitView::Auth => "Auth"@,
            UnitView::Custom(name) => "Custom("@ + str_debug(name) + ")"@,
        }
    }
}

/// What `cashu::CurrencyUnit::from_str` makes of a text: a unit, or an error message.
pub uninterp spec fn cashu_unit(text: Seq<char>) -> Result<UnitView, Seq<char>>;

/// The text that `cashu::CurrencyUnit`'s `Display` writes for a unit.
pub uninterp spec fn cashu_unit_text(unit: UnitView) -> Seq<char>;

/// A name that stands for itself: ASCII small letters, digits and underscores, other than the
/// name of a built-in unit. Names of the form `pop_<unix_ts>` are such.
pub open spec fn is_plain_unit_name(name: Seq<char>) -> bool {
    &&& forall|i: int|
        0 <= i < name.len() ==> ('a' <= #[trigger] name[i] <= 'z' || '0' <= name[i] <= '9'
            || name[i] == '_')
    &&& name != "sat"@
    &&& name != "msat"@
    &&& name != "usd"@
    &&& name != "eur"@
    &&& name != "auth"@
}

/// Whether a unit is the same again after it has been written and read: all built-in units are,
/// and custom units with a plain name; of any other unit the codec decides.
pub open spec fn unit_survives(unit: UnitView) -> bool {
    match unit {
        UnitView::Custom(name) => is_plain_unit_name(name) || cashu_unit(cashu_unit_text(unit))
            == Ok::<_, Seq<char>>(unit),
        _ => true,
    }
}

/// A parsed unit taken by view.
pub open spec fn unit_result(r: Result<CurrencyUnit, String>) -> Result<UnitView, Seq<char>> {
    match r {
        Ok(unit) => Ok(unit@),
        Err(m) => Err(m@),
    }
}

/// `cashu::CurrencyUnit::from_str`: recognises the built-in units without regard to case and
/// normalises any other name. The result is named by [`cashu_unit`]: it is a function of the
/// text alone. It never fails, and a plain name becomes the custom unit of that name.
#[verifier::external_body]
fn unit_from_str(text: &str) -> (r: Result<CurrencyUnit, String>)
    ensures
        unit_result(r) == cashu_unit(text@),
        r is Ok,
        r matches Ok(unit) ==> is_plain_unit_name(text@) ==> unit@ == UnitView::Custom(text@),
{
    match cashu::CurrencyUnit::from_str(text) {
        Ok(cashu::CurrencyUnit::Sat) => Ok(CurrencyUnit::Sat),
        Ok(cashu::CurrencyUnit::Msat) => Ok(CurrencyUnit::Msat),
        Ok(cashu::CurrencyUnit::Usd) => Ok(CurrencyUnit::Usd),
        Ok(cashu::CurrencyUnit::Eur) => Ok(CurrencyUnit::Eur),
        Ok(cashu::CurrencyUnit::Auth) => Ok(CurrencyUnit::Auth),
        Ok(cashu::CurrencyUnit::Custom(name)) => Ok(CurrencyUnit::Custom(name)),
        Ok(other) => Err(other.to_string()),
        Err(e) => Err(e.to_string()),
    }
}

/// `to_string` of `cashu::CurrencyUnit`: the name of the unit in small letters. The result is
/// named by [`cashu_unit_text`]: it is a function of the unit alone. A plain name stands for
/// itself.
#[verifier::external_body]
fn unit_to_string(unit: &CurrencyUnit) -> (r: String)
    ensures
        r@ == cashu_unit_text(unit@),
        unit@ matches UnitView::Custom(name) ==> is_plain_unit_name(name) ==> r@ == name,
{
    match unit {
        CurrencyUnit::Sat => cashu::CurrencyUnit::Sat.to_string(),
        CurrencyUnit::Msat => cashu::CurrencyUnit::Msat.to_string(),
        CurrencyUnit::Usd => cashu::CurrencyUnit::Usd.to_string(),
        CurrencyUnit::Eur => cashu::CurrencyUnit::Eur.to_string(),
        CurrencyUnit::Auth => cashu::CurrencyUnit::Auth.to_string(),
        CurrencyUnit::Custom(name) => cashu::CurrencyUnit::Custom(name.clone()).to_string(),
    }
}

impl CurrencyUnit {
    /// The unit as text.
    pub fn to_string(&self) -> (r: String)
        ensures
            r@ == cashu_unit_text(self@),
            self@ matches UnitView::Custom(name) ==> is_plain_unit_name(name) ==> r@ == name,
    {
        unit_to_string(self)
    }

    /// Reads a unit from text.
    pub fn from_str(text: &str) -> (r: Result<CurrencyUnit, String>)
        ensures
            unit_result(r) == cashu_unit(text@),
            r is Ok,
            is_plain_unit_name(text@) ==> (r matches Ok(unit) && unit@ == UnitView::Custom(text@)),
    {
        unit_from_str(text)
    }

    /// Whether two units are the same.
    pub fn same_as(&self, other: &CurrencyUnit) -> (r: bool)
        ensures
            r == (self@ == other@),
    {
        match (self, other) {
            (CurrencyUnit::Sat, CurrencyUnit::Sat) => true,
            (CurrencyUnit::Msat, CurrencyUnit::Msat) => true,
            (CurrencyUnit::Usd, CurrencyUnit::Usd) => true,
            (CurrencyUnit::Eur, CurrencyUnit::Eur) => true,
            (CurrencyUnit::Auth, CurrencyUnit::Auth) => true,
            (CurrencyUnit::Custom(a), CurrencyUnit::Custom(b)) => *a == *b,
            _ => false,
        }
    }

    /// The unit for diagnostics.
    pub fn to_debug(&self) -> (r: String)
        ensures
            r@ == self@.debug(),
    {
        match self {
            CurrencyUnit::Sat => "Sat".to_string(),
            CurrencyUnit::Msat => "Msat".to_string(),
            CurrencyUnit::Usd => "Usd".to_string(),
            CurrencyUnit::Eur => "Eur".to_string(),
            CurrencyUnit::Auth => "Auth".to_string(),
            CurrencyUnit::Custom(name) => "Custom(".to_string().concat(
                debug_str(name.as_str()).as_str(),
            ).concat(")"),
        }
    }
}

/// Reads a unit given on the command line; the message of a failure names the text.
pub fn parse_unit(s: &str) -> (r: Result<CurrencyUnit, String>)
    ensures
        unit_result(r) == match cashu_unit(s@) {
            Ok(unit) => Ok::<_, Seq<char>>(unit),
            Err(m) => Err("invalid currency unit "@ + str_debug(s@) + ": "@ + m),
        },
        r is Ok,
        is_plain_unit_name(s@) ==> (r matches Ok(unit) && unit@ == UnitView::Custom(s@)),
{
    match CurrencyUnit::from_str(s) {
        Ok(unit) => Ok(unit),
        Err(m) => Err(
            "invalid currency unit ".to_string().concat(debug_str(s).as_str()).concat(": ").concat(
                m.as_str(),
            ),
        ),
    }
}

} // verus!
