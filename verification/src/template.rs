//! Template renderer: substitutes `{{name}}` placeholders in a license
//! header template with field values, preserving the template's
//! whitespace and line structure exactly.

use vstd::prelude::*;
use crate::bytes::{copy_range, eq_bytes, find_sub, find_sub_spec, lemma_find_sub_first, push_all,
    push_range};

verus! {

/// `{`, the opening half of a placeholder delimiter.
pub const LBRACE: u8 = 123;
/// `}`, the closing half of a placeholder delimiter.
pub const RBRACE: u8 = 125;

/// One substitution supplied by configuration: a placeholder name and
/// the literal value that replaces it.
pub struct Field {
    pub name: Vec<u8>,
    pub value: Vec<u8>,
}

/// Rendering failed: the template references a placeholder that the
/// field map does not supply.
#[derive(Debug)]
pub enum RenderError {
    MissingField(Vec<u8>),
}

/// The value of the first field named `name`, if any.
pub open spec fn lookup_field_spec(fields: Seq<Field>, name: Seq<u8>) -> Option<Seq<u8>>
    decreases fields.len(),
{
    if fields.len() == 0 {
        None
    } else if fields[0].name@ == name {
        Some(fields[0].value@)
    } else {
        lookup_field_spec(fields.drop_first(), name)
    }
}

/// The rendered form of `template[from..]`: text is copied verbatim,
/// and each `{{name}}` token is replaced by the value of field `name`.
/// An unclosed delimiter is kept as literal text; a placeholder whose
/// name has no field fails with that name.
pub open spec fn render_from(template: Seq<u8>, fields: Seq<Field>, from: int) -> Result<
    Seq<u8>,
    Seq<u8>,
>
    decreases template.len() - from,
    via render_from_decreases
{
    match find_sub_spec(template, from, seq![LBRACE, LBRACE]) {
        None => Ok(template.subrange(from, template.len() as int)),
        Some(p) => match find_sub_spec(template, p + 2, seq![RBRACE, RBRACE]) {
            None => Ok(template.subrange(from, template.len() as int)),
            Some(q) => {
                let name = template.subrange(p + 2, q);
                match lookup_field_spec(fields, name) {
                    None => Err(name),
                    Some(v) => match render_from(template, fields, q + 2) {
                        Ok(rest) => Ok(template.subrange(from, p) + v + rest),
                        Err(e) => Err(e),
                    },
                }
            },
        },
    }
}

#[via_fn]
proof fn render_from_decreases(template: Seq<u8>, fields: Seq<Field>, from: int) {
    if from >= 0 {
        lemma_find_sub_first(template, from, seq![LBRACE, LBRACE]);
        match find_sub_spec(template, from, seq![LBRACE, LBRACE]) {
            Some(p) => lemma_find_sub_first(template, p + 2, seq![RBRACE, RBRACE]),
            None => (),
        }
    }
}

/// The rendered header for a template and field map, or the name of the
/// first missing field.
pub open spec fn render_spec(template: Seq<u8>, fields: Seq<Field>) -> Result<Seq<u8>, Seq<u8>> {
    render_from(template, fields, 0)
}

/// The value of the first field named `name`, if any.
fn lookup_field(fields: &Vec<Field>, name: &Vec<u8>) -> (r: Option<usize>)
    ensures
        match r {
            Some(i) => i < fields@.len() && lookup_field_spec(fields@, name@) == Some(
                fields@[i as int].value@,
            ),
            None => lookup_field_spec(fields@, name@) is None,
        },
{
    let mut i: usize = 0;
    proof {
        assert(fields@.skip(0) =~= fields@);
    }
    while i < fields.len()
        invariant
            0 <= i <= fields@.len(),
            lookup_field_spec(fields@, name@) == lookup_field_spec(fields@.skip(i as int), name@),
        decreases fields@.len() - i,
    {
        proof {
            assert(fields@.skip(i as int)[0] == fields@[i as int]);
            assert(fields@.skip(i as int).drop_first() =~= fields@.skip(i + 1));
        }
        if eq_bytes(&fields[i].name, name) {
            return Some(i);
        }
        i += 1;
    }
    None
}

/// Renders `template` with `fields`: copies literal text and replaces
/// each `{{name}}` placeholder with the value of field `name`. Fails
/// with `MissingField` when the template references a name the fields
/// do not supply; fields the template never references are ignored.
pub fn render(template: &Vec<u8>, fields: &Vec<Field>) -> (r: Result<Vec<u8>, RenderError>)
    ensures
        match r {
            Ok(v) => render_spec(template@, fields@) == Ok::<Seq<u8>, Seq<u8>>(v@),
            Err(RenderError::MissingField(n)) => render_spec(template@, fields@) == Err::<
                Seq<u8>,
                Seq<u8>,
            >(n@),
        },
{
    let obr: Vec<u8> = vec![LBRACE, LBRACE];
    let cbr: Vec<u8> = vec![RBRACE, RBRACE];
    proof {
        assert(obr@ =~= seq![LBRACE, LBRACE]);
        assert(cbr@ =~= seq![RBRACE, RBRACE]);
    }
    let mut out: Vec<u8> = Vec::new();
    let mut pos: usize = 0;
    let tlen = template.len();
    loop
        invariant
            template@.len() == tlen,
            0 <= pos <= template@.len(),
            obr@ == seq![LBRACE, LBRACE],
            cbr@ == seq![RBRACE, RBRACE],
            render_from(template@, fields@, 0) == (match render_from(
                template@,
                fields@,
                pos as int,
            ) {
                Ok(rest) => Ok::<Seq<u8>, Seq<u8>>(out@ + rest),
                Err(e) => Err::<Seq<u8>, Seq<u8>>(e),
            }),
        decreases template@.len() - pos,
    {
        match find_sub(template, pos, &obr) {
            None => {
                push_range(&mut out, template, pos, template.len());
                return Ok(out);
            },
            Some(p) => {
                match find_sub(template, p + 2, &cbr) {
                    None => {
                        push_range(&mut out, template, pos, template.len());
                        return Ok(out);
                    },
                    Some(q) => {
                        let name = copy_range(template, p + 2, q);
                        match lookup_field(fields, &name) {
                            None => {
                                return Err(RenderError::MissingField(name));
                            },
                            Some(fi) => {
                                let ghost out0 = out@;
                                push_range(&mut out, template, pos, p);
                                push_all(&mut out, &fields[fi].value);
                                proof {
                                    match render_from(template@, fields@, q + 2 as int) {
                                        Ok(rest) => {
                                            assert(out@ + rest =~= out0 + (template@.subrange(
                                                pos as int,
                                                p as int,
                                            ) + fields@[fi as int].value@ + rest));
                                        },
                                        Err(e) => (),
                                    }
                                }
                                pos = q + 2;
                            },
                        }
                    },
                }
            },
        }
    }
}

} // verus!
