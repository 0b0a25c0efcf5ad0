//! One whole run of the engine: configuration validation, catalog
//! lookup, template rendering, and the application pass over the
//! candidate files. Fatal configuration problems abort before any file
//! result is produced.

use vstd::prelude::*;
use crate::catalog::{Catalog, first_match};
use crate::engine::{Mode, RunReport, WorkItem, apply_all, report_matches};
use crate::scanner::{STAR, views_of};
use crate::template::{Field, RenderError, render, render_spec};

verus! {

/// `0`, the first decimal digit.
pub const DIGIT_ZERO: u8 = 48;

/// A fatal error found before any file is touched.
#[derive(Debug)]
pub enum EngineError {
    /// The configured allow-list does not permit the requested license.
    LicenseNotAllowed(Vec<u8>),
    /// The catalog holds no entry for the requested license.
    UnknownLicense(Vec<u8>),
    /// The license template references a field the run does not supply.
    MissingField(Vec<u8>),
}

/// The requested license identifier is allowed when the list holds the
/// wildcard entry `*` or the identifier itself.
pub open spec fn allowed_spec(id: Seq<u8>, allowed: Seq<Seq<u8>>) -> bool {
    (exists|i: int| 0 <= i < allowed.len() && #[trigger] allowed[i] == seq![STAR]) || (exists|
        i: int,
    | 0 <= i < allowed.len() && #[trigger] allowed[i] == id)
}

/// Whether the allow-list permits license identifier `id`.
pub fn license_id_allowed(id: &Vec<u8>, allowed: &Vec<Vec<u8>>) -> (r: bool)
    ensures
        r == allowed_spec(id@, views_of(allowed@)),
{
    let star: Vec<u8> = vec![STAR];
    proof {
        assert(star@ =~= seq![STAR]);
    }
    let mut i: usize = 0;
    while i < allowed.len()
        invariant
            0 <= i <= allowed@.len(),
            star@ == seq![STAR],
            forall|j: int| 0 <= j < i ==> #[trigger] views_of(allowed@)[j] != seq![STAR],
            forall|j: int| 0 <= j < i ==> #[trigger] views_of(allowed@)[j] != id@,
        decreases allowed@.len() - i,
    {
        if crate::bytes::eq_bytes(&allowed[i], &star) {
            proof {
                assert(views_of(allowed@)[i as int] == seq![STAR]);
            }
            return true;
        }
        if crate::bytes::eq_bytes(&allowed[i], id) {
            proof {
                assert(views_of(allowed@)[i as int] == id@);
            }
            return true;
        }
        i += 1;
    }
    false
}

/// The decimal digits of `y`, most significant first.
pub open spec fn decimal_spec(y: nat) -> Seq<u8>
    decreases y,
{
    if y < 10 {
        seq![(DIGIT_ZERO + y) as u8]
    } else {
        decimal_spec(y / 10) + seq![(DIGIT_ZERO + y % 10) as u8]
    }
}

/// The decimal digits of `y`, most significant first.
pub fn decimal_bytes(y: u16) -> (r: Vec<u8>)
    ensures
        r@ == decimal_spec(y as nat),
    decreases y,
{
    if y < 10 {
        let v: Vec<u8> = vec![DIGIT_ZERO + (y as u8)];
        proof {
            assert(v@ =~= decimal_spec(y as nat));
        }
        v
    } else {
        proof {
            assert((y / 10) < y) by (nonlinear_arith)
                requires
                    y >= 10,
            ;
        }
        let mut v = decimal_bytes(y / 10);
        v.push(DIGIT_ZERO + ((y % 10) as u8));
        proof {
            assert(v@ =~= decimal_spec((y / 10) as nat) + seq![
                (DIGIT_ZERO + (y as nat) % 10) as u8,
            ]);
        }
        v
    }
}

/// The placeholder name `author`.
pub open spec fn author_key() -> Seq<u8> {
    seq![97u8, 117u8, 116u8, 104u8, 111u8, 114u8]
}

/// The placeholder name `year`.
pub open spec fn year_key() -> Seq<u8> {
    seq![121u8, 101u8, 97u8, 114u8]
}

/// The standard field map of a run: the configured author, and the
/// configured year in decimal.
pub fn build_fields(author: &Vec<u8>, year: u16) -> (r: Vec<Field>)
    ensures
        r@.len() == 2,
        r@[0].name@ == author_key(),
        r@[0].value@ == author@,
        r@[1].name@ == year_key(),
        r@[1].value@ == decimal_spec(year as nat),
{
    let author_name: Vec<u8> = vec![97u8, 117, 116, 104, 111, 114];
    let year_name: Vec<u8> = vec![121u8, 101, 97, 114];
    proof {
        assert(author_name@ =~= author_key());
        assert(year_name@ =~= year_key());
    }
    let author_value = crate::bytes::copy_range(author, 0, author.len());
    proof {
        assert(author_value@ =~= author@);
    }
    let mut fields: Vec<Field> = Vec::new();
    fields.push(Field { name: author_name, value: author_value });
    fields.push(Field { name: year_name, value: decimal_bytes(year) });
    fields
}

/// One whole run. Validation comes first and aborts before any file is
/// touched: the requested license must be allowed and present in the
/// catalog, and its template must render with the given fields. The
/// rendered header is then applied to every work item.
pub fn run(
    catalog: &Catalog,
    license_id: &Vec<u8>,
    allowed: &Vec<Vec<u8>>,
    fields: &Vec<Field>,
    items: &Vec<WorkItem>,
    mode: Mode,
) -> (r: Result<RunReport, EngineError>)
    ensures
        match r {
            Err(EngineError::LicenseNotAllowed(l)) => !allowed_spec(
                license_id@,
                views_of(allowed@),
            ) && l@ == license_id@,
            Err(EngineError::UnknownLicense(l)) => allowed_spec(license_id@, views_of(allowed@))
                && first_match(catalog.entries@, license_id@) is None && l@ == license_id@,
            Err(EngineError::MissingField(n)) => allowed_spec(license_id@, views_of(allowed@))
                && (match first_match(catalog.entries@, license_id@) {
                Some(i) => render_spec(catalog.entries@[i].header_template@, fields@) == Err::<
                    Seq<u8>,
                    Seq<u8>,
                >(n@),
                None => false,
            }),
            Ok(report) => allowed_spec(license_id@, views_of(allowed@)) && (match first_match(
                catalog.entries@,
                license_id@,
            ) {
                Some(i) => match render_spec(catalog.entries@[i].header_template@, fields@) {
                    Ok(rendered) => report_matches(report, items@, rendered, license_id@, mode),
                    Err(_) => false,
                },
                None => false,
            }),
        },
{
    if !license_id_allowed(license_id, allowed) {
        let l = crate::bytes::copy_range(license_id, 0, license_id.len());
        proof {
            assert(l@ =~= license_id@);
        }
        return Err(EngineError::LicenseNotAllowed(l));
    }
    let entry_index = match catalog.lookup(license_id) {
        None => {
            let l = crate::bytes::copy_range(license_id, 0, license_id.len());
            proof {
                assert(l@ =~= license_id@);
            }
            return Err(EngineError::UnknownLicense(l));
        },
        Some(i) => i,
    };
    let rendered = match render(&catalog.entries[entry_index].header_template, fields) {
        Err(RenderError::MissingField(n)) => {
            return Err(EngineError::MissingField(n));
        },
        Ok(v) => v,
    };
    Ok(apply_all(items, &rendered, license_id, mode))
}

} // verus!
