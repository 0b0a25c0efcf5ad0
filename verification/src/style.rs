//! Comment syntax table: classifies a file path by extension (or exact
//! file name) into a comment style, and wraps a rendered header in that
//! style.

use vstd::prelude::*;
use crate::bytes::{LF, copy_range, eq_bytes, find_byte, find_byte_spec, push_all, push_range,
    rfind_byte, rfind_byte_spec};

verus! {

/// How a header is written as a comment for one family of files:
/// either every line gets a prefix, or the whole block is framed by an
/// opening marker, a continuation prefix, and a closing marker.
pub enum CommentStyle {
    Line { prefix: Vec<u8> },
    Block { open: Vec<u8>, cont: Vec<u8>, close: Vec<u8> },
}

/// Mathematical image of a `CommentStyle`.
pub enum StyleView {
    Line { prefix: Seq<u8> },
    Block { open: Seq<u8>, cont: Seq<u8>, close: Seq<u8> },
}

impl View for CommentStyle {
    type V = StyleView;

    open spec fn view(&self) -> StyleView {
        match self {
            CommentStyle::Line { prefix } => StyleView::Line { prefix: prefix@ },
            CommentStyle::Block { open, cont, close } => StyleView::Block {
                open: open@,
                cont: cont@,
                close: close@,
            },
        }
    }
}

/// `/`, the path separator.
pub const SLASH: u8 = 47;
/// `.`, the extension separator.
pub const DOT: u8 = 46;

/// The file name part of a path: everything after the last separator.
pub open spec fn base_name_spec(path: Seq<u8>) -> Seq<u8> {
    match rfind_byte_spec(path, SLASH) {
        Some(i) => path.subrange(i + 1, path.len() as int),
        None => path,
    }
}

/// The extension of a path's file name: everything after the last dot,
/// empty when there is no dot or the name only starts with one.
pub open spec fn ext_spec(path: Seq<u8>) -> Seq<u8> {
    let name = base_name_spec(path);
    match rfind_byte_spec(name, DOT) {
        Some(i) => if i == 0 {
            Seq::empty()
        } else {
            name.subrange(i + 1, name.len() as int)
        },
        None => Seq::empty(),
    }
}

/// The comment style a path is classified into, by extension or exact
/// file name, or `None` for a file the engine does not support.
pub open spec fn style_for_spec(path: Seq<u8>) -> Option<StyleView> {
    let name = base_name_spec(path);
    let ext = ext_spec(path);
    if ext == seq![114u8, 115u8]  // rs
     || ext == seq![99u8]  // c
     || ext == seq![104u8]  // h
     || ext == seq![99u8, 112u8, 112u8]  // cpp
     || ext == seq![106u8, 115u8]  // js
     || ext == seq![116u8, 115u8]  // ts
     || ext == seq![103u8, 111u8]  // go
     || ext == seq![106u8, 97u8, 118u8, 97u8]  // java
     {
        Some(StyleView::Line { prefix: seq![47u8, 47u8, 32u8] })  // "// "
    } else if ext == seq![112u8, 121u8]  // py
     || ext == seq![114u8, 98u8]  // rb
     || ext == seq![115u8, 104u8]  // sh
     || ext == seq![121u8, 109u8, 108u8]  // yml
     || ext == seq![121u8, 97u8, 109u8, 108u8]  // yaml
     || ext == seq![116u8, 111u8, 109u8, 108u8]  // toml
     || name == seq![77u8, 97u8, 107u8, 101u8, 102u8, 105u8, 108u8, 101u8]  // Makefile
     || name == seq![68u8, 111u8, 99u8, 107u8, 101u8, 114u8, 102u8, 105u8, 108u8, 101u8]  // Dockerfile
     {
        Some(StyleView::Line { prefix: seq![35u8, 32u8] })  // "# "
    } else if ext == seq![99u8, 115u8, 115u8]  // css
     {
        Some(
            StyleView::Block {
                open: seq![47u8, 42u8],  // "/*"
                cont: seq![32u8, 42u8, 32u8],  // " * "
                close: seq![32u8, 42u8, 47u8],  // " */"
            },
        )
    } else if ext == seq![104u8, 116u8, 109u8, 108u8]  // html
     || ext == seq![120u8, 109u8, 108u8]  // xml
     || ext == seq![109u8, 100u8]  // md
     {
        Some(
            StyleView::Block {
                open: seq![60u8, 33u8, 45u8, 45u8],  // "<!--"
                cont: seq![32u8, 32u8],  // "  "
                close: seq![45u8, 45u8, 62u8],  // "-->"
            },
        )
    } else {
        None
    }
}

/// The comment style for `path`, or `None` when the file kind is not in
/// the table and must be skipped.
pub fn style_for(path: &Vec<u8>) -> (r: Option<CommentStyle>)
    ensures
        match r {
            Some(s) => style_for_spec(path@) == Some(s@),
            None => style_for_spec(path@) is None,
        },
{
    let name: Vec<u8> = match rfind_byte(path, SLASH) {
        Some(i) => copy_range(path, i + 1, path.len()),
        None => copy_range(path, 0, path.len()),
    };
    proof {
        assert(path@.subrange(0, path@.len() as int) =~= path@);
        assert(name@ == base_name_spec(path@));
    }
    let ext: Vec<u8> = match rfind_byte(&name, DOT) {
        Some(i) => if i == 0 {
            Vec::new()
        } else {
            copy_range(&name, i + 1, name.len())
        },
        None => Vec::new(),
    };
    proof {
        assert(ext@ == ext_spec(path@));
    }
    let e_rs: Vec<u8> = vec![114u8, 115];
    let e_c: Vec<u8> = vec![99u8];
    let e_h: Vec<u8> = vec![104u8];
    let e_cpp: Vec<u8> = vec![99u8, 112, 112];
    let e_js: Vec<u8> = vec![106u8, 115];
    let e_ts: Vec<u8> = vec![116u8, 115];
    let e_go: Vec<u8> = vec![103u8, 111];
    let e_java: Vec<u8> = vec![106u8, 97, 118, 97];
    let e_py: Vec<u8> = vec![112u8, 121];
    let e_rb: Vec<u8> = vec![114u8, 98];
    let e_sh: Vec<u8> = vec![115u8, 104];
    let e_yml: Vec<u8> = vec![121u8, 109, 108];
    let e_yaml: Vec<u8> = vec![121u8, 97, 109, 108];
    let e_toml: Vec<u8> = vec![116u8, 111, 109, 108];
    let n_make: Vec<u8> = vec![77u8, 97, 107, 101, 102, 105, 108, 101];
    let n_docker: Vec<u8> = vec![68u8, 111, 99, 107, 101, 114, 102, 105, 108, 101];
    let e_css: Vec<u8> = vec![99u8, 115, 115];
    let e_html: Vec<u8> = vec![104u8, 116, 109, 108];
    let e_xml: Vec<u8> = vec![120u8, 109, 108];
    let e_md: Vec<u8> = vec![109u8, 100];
    proof {
        assert(e_rs@ =~= seq![114u8, 115u8]);
        assert(e_c@ =~= seq![99u8]);
        assert(e_h@ =~= seq![104u8]);
        assert(e_cpp@ =~= seq![99u8, 112u8, 112u8]);
        assert(e_js@ =~= seq![106u8, 115u8]);
        assert(e_ts@ =~= seq![116u8, 115u8]);
        assert(e_go@ =~= seq![103u8, 111u8]);
        assert(e_java@ =~= seq![106u8, 97u8, 118u8, 97u8]);
        assert(e_py@ =~= seq![112u8, 121u8]);
        assert(e_rb@ =~= seq![114u8, 98u8]);
        assert(e_sh@ =~= seq![115u8, 104u8]);
        assert(e_yml@ =~= seq![121u8, 109u8, 108u8]);
        assert(e_yaml@ =~= seq![121u8, 97u8, 109u8, 108u8]);
        assert(e_toml@ =~= seq![116u8, 111u8, 109u8, 108u8]);
        assert(n_make@ =~= seq![77u8, 97u8, 107u8, 101u8, 102u8, 105u8, 108u8, 101u8]);
        assert(n_docker@ =~= seq![68u8, 111u8, 99u8, 107u8, 101u8, 114u8, 102u8, 105u8, 108u8, 101u8]);
        assert(e_css@ =~= seq![99u8, 115u8, 115u8]);
        assert(e_html@ =~= seq![104u8, 116u8, 109u8, 108u8]);
        assert(e_xml@ =~= seq![120u8, 109u8, 108u8]);
        assert(e_md@ =~= seq![109u8, 100u8]);
    }
    if eq_bytes(&ext, &e_rs) || eq_bytes(&ext, &e_c) || eq_bytes(&ext, &e_h) || eq_bytes(
        &ext,
        &e_cpp,
    ) || eq_bytes(&ext, &e_js) || eq_bytes(&ext, &e_ts) || eq_bytes(&ext, &e_go) || eq_bytes(
        &ext,
        &e_java,
    ) {
        let prefix: Vec<u8> = vec![47u8, 47, 32];
        proof {
            assert(prefix@ =~= seq![47u8, 47u8, 32u8]);
        }
        Some(CommentStyle::Line { prefix })
    } else if eq_bytes(&ext, &e_py) || eq_bytes(&ext, &e_rb) || eq_bytes(&ext, &e_sh) || eq_bytes(
        &ext,
        &e_yml,
    ) || eq_bytes(&ext, &e_yaml) || eq_bytes(&ext, &e_toml) || eq_bytes(&name, &n_make)
        || eq_bytes(&name, &n_docker) {
        let prefix: Vec<u8> = vec![35u8, 32];
        proof {
            assert(prefix@ =~= seq![35u8, 32u8]);
        }
        Some(CommentStyle::Line { prefix })
    } else if eq_bytes(&ext, &e_css) {
        let open: Vec<u8> = vec![47u8, 42];
        let cont: Vec<u8> = vec![32u8, 42, 32];
        let close: Vec<u8> = vec![32u8, 42, 47];
        proof {
            assert(open@ =~= seq![47u8, 42u8]);
            assert(cont@ =~= seq![32u8, 42u8, 32u8]);
            assert(close@ =~= seq![32u8, 42u8, 47u8]);
        }
        Some(CommentStyle::Block { open, cont, close })
    } else if eq_bytes(&ext, &e_html) || eq_bytes(&ext, &e_xml) || eq_bytes(&ext, &e_md) {
        let open: Vec<u8> = vec![60u8, 33, 45, 45];
        let cont: Vec<u8> = vec![32u8, 32];
        let close: Vec<u8> = vec![45u8, 45, 62];
        proof {
            assert(open@ =~= seq![60u8, 33u8, 45u8, 45u8]);
            assert(cont@ =~= seq![32u8, 32u8]);
            assert(close@ =~= seq![45u8, 45u8, 62u8]);
        }
        Some(CommentStyle::Block { open, cont, close })
    } else {
        None
    }
}

/// Every line of `text[from..]`, prefixed with `prefix` and terminated
/// by a line feed.
pub open spec fn wrap_from(prefix: Seq<u8>, text: Seq<u8>, from: int) -> Seq<u8>
    decreases text.len() - from,
    via wrap_from_decreases
{
    if from < 0 || from >= text.len() {
        Seq::empty()
    } else {
        match find_byte_spec(text, from, LF) {
            None => prefix + text.subrange(from, text.len() as int) + seq![LF],
            Some(i) => prefix + text.subrange(from, i) + seq![LF] + wrap_from(prefix, text, i + 1),
        }
    }
}

#[via_fn]
proof fn wrap_from_decreases(prefix: Seq<u8>, text: Seq<u8>, from: int) {
    if 0 <= from < text.len() {
        crate::bytes::lemma_find_byte_first(text, from, LF);
    }
}

/// The exact bytes of `text` wrapped in `style`: for a line style each
/// line is prefixed; for a block style the opening marker stands on its
/// own line before the prefixed lines and the closing marker on its own
/// line after them.
pub open spec fn wrap_spec(style: StyleView, text: Seq<u8>) -> Seq<u8> {
    match style {
        StyleView::Line { prefix } => wrap_from(prefix, text, 0),
        StyleView::Block { open, cont, close } => open + seq![LF] + wrap_from(cont, text, 0)
            + close + seq![LF],
    }
}

/// Appends every line of `text`, prefixed with `prefix` and terminated
/// by a line feed, to `out`.
fn wrap_body(out: &mut Vec<u8>, prefix: &Vec<u8>, text: &Vec<u8>)
    ensures
        final(out)@ == old(out)@ + wrap_from(prefix@, text@, 0),
{
    let mut pos: usize = 0;
    while pos < text.len()
        invariant
            0 <= pos <= text@.len(),
            old(out)@ + wrap_from(prefix@, text@, 0) == out@ + wrap_from(
                prefix@,
                text@,
                pos as int,
            ),
        decreases text@.len() - pos,
    {
        match find_byte(text, pos, LF) {
            None => {
                push_all(out, prefix);
                push_range(out, text, pos, text.len());
                out.push(LF);
                proof {
                    assert(out@ =~= old(out)@ + wrap_from(prefix@, text@, 0));
                }
                return ;
            },
            Some(i) => {
                push_all(out, prefix);
                push_range(out, text, pos, i);
                out.push(LF);
                proof {
                    assert(out@ + wrap_from(prefix@, text@, i + 1) =~= old(out)@ + wrap_from(
                        prefix@,
                        text@,
                        0,
                    ));
                }
                pos = i + 1;
            },
        }
    }
}

/// The rendered header `text` wrapped in `style`, byte for byte as it
/// is expected at the top of a matching file.
pub fn wrap_header(style: &CommentStyle, text: &Vec<u8>) -> (r: Vec<u8>)
    ensures
        r@ == wrap_spec(style@, text@),
{
    let mut out: Vec<u8> = Vec::new();
    match style {
        CommentStyle::Line { prefix } => {
            wrap_body(&mut out, prefix, text);
        },
        CommentStyle::Block { open, cont, close } => {
            push_all(&mut out, open);
            out.push(LF);
            wrap_body(&mut out, cont, text);
            push_all(&mut out, close);
            out.push(LF);
            proof {
                assert(out@ =~= open@ + seq![LF] + wrap_from(cont@, text@, 0) + close@ + seq![LF]);
            }
        },
    }
    out
}

} // verus!
