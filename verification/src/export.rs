//! The standalone HTML document that an export writes.

use vstd::prelude::*;
use crate::text::occurs_in;

verus! {

/// The text before the stylesheet.
pub open spec fn document_head() -> Seq<char> {
    "<!doctype html>\n<html lang=\"en\">\n<head>\n<meta charset=\"UTF-8\" />\n<style>\n"@
}

/// The text between the stylesheet and the body.
pub open spec fn document_middle() -> Seq<char> {
    "\n</style>\n</head>\n<body class=\"markdown-body\">\n"@
}

/// The text after the body.
pub open spec fn document_tail() -> Seq<char> {
    "\n</body>\n</html>\n"@
}

/// The standalone document around a stylesheet and a rendered body.
pub open spec fn standalone_html(css: Seq<char>, body: Seq<char>) -> Seq<char> {
    document_head() + css + document_middle() + body + document_tail()
}

/// Wrap rendered body HTML + CSS into a standalone, light HTML document.
/// No `data-theme` attribute, so the light `:root` palette applies.
pub fn wrap_html(css: &str, body: &str) -> (r: String)
    ensures
        r@ == standalone_html(css@, body@),
{
    let mut out = String::from_str(
        "<!doctype html>\n<html lang=\"en\">\n<head>\n<meta charset=\"UTF-8\" />\n<style>\n",
    );
    out.append(css);
    out.append("\n</style>\n</head>\n<body class=\"markdown-body\">\n");
    out.append(body);
    out.append("\n</body>\n</html>\n");
    out
}

/// The attribute that would select the dark palette.
pub open spec fn theme_attribute() -> Seq<char> {
    "data-theme"@
}

/// The attribute does not occur in the fixed text before the stylesheet.
proof fn lemma_not_in_head()
    ensures
        !occurs_in(theme_attribute(), document_head()),
{
    reveal_strlit("<!doctype html>\n<html lang=\"en\">\n<head>\n<meta charset=\"UTF-8\" />\n<style>\n");
    reveal_strlit("data-theme");
    let h = document_head();
    let t = theme_attribute();
    assert forall|i: int| 0 <= i && i + t.len() <= h.len() implies #[trigger] h.subrange(i, i + t.len()) != t by {
        if h.subrange(i, i + t.len()) == t {
            assert(h[i] == t[0]);
            assert(h[i + 1] == t[1]);
            assert(h[i + 2] == t[2]);
        }
    }
}

/// The attribute does not occur in the fixed text between stylesheet and body.
proof fn lemma_not_in_middle()
    ensures
        !occurs_in(theme_attribute(), document_middle()),
{
    reveal_strlit("\n</style>\n</head>\n<body class=\"markdown-body\">\n");
    reveal_strlit("data-theme");
    let m = document_middle();
    let t = theme_attribute();
    assert forall|i: int| 0 <= i && i + t.len() <= m.len() implies #[trigger] m.subrange(i, i + t.len()) != t by {
        if m.subrange(i, i + t.len()) == t {
            assert(m[i] == t[0]);
            assert(m[i + 1] == t[1]);
            assert(m[i + 2] == t[2]);
            assert(m[i + 3] == t[3]);
            assert(m[i + 4] == t[4]);
        }
    }
}

/// The attribute does not occur in the fixed text after the body.
proof fn lemma_not_in_tail()
    ensures
        !occurs_in(theme_attribute(), document_tail()),
{
    reveal_strlit("\n</body>\n</html>\n");
    reveal_strlit("data-theme");
    let m = document_tail();
    let t = theme_attribute();
    assert forall|i: int| 0 <= i && i + t.len() <= m.len() implies #[trigger] m.subrange(i, i + t.len()) != t by {
        if m.subrange(i, i + t.len()) == t {
            assert(m[i] == t[0]);
            assert(m[i + 1] == t[1]);
        }
    }
}

/// The exported document carries no `data-theme` attribute of its own: the
/// attribute occurs in it only where it occurs in the stylesheet or the body,
/// so the light palette applies.
pub proof fn lemma_export_has_no_theme_attribute(css: Seq<char>, body: Seq<char>)
    requires
        !occurs_in(theme_attribute(), css),
        !occurs_in(theme_attribute(), body),
    ensures
        !occurs_in(theme_attribute(), standalone_html(css, body)),
{
    reveal_strlit("<!doctype html>\n<html lang=\"en\">\n<head>\n<meta charset=\"UTF-8\" />\n<style>\n");
    reveal_strlit("\n</style>\n</head>\n<body class=\"markdown-body\">\n");
    reveal_strlit("\n</body>\n</html>\n");
    reveal_strlit("data-theme");
    lemma_not_in_head();
    lemma_not_in_middle();
    lemma_not_in_tail();
    let t = theme_attribute();
    let h = document_head();
    let m = document_middle();
    let tl = document_tail();
    let w = standalone_html(css, body);
    let a: int = h.len() as int;
    let b: int = a + css.len();
    let c: int = b + m.len();
    let d: int = c + body.len();
    assert(w.len() == d + tl.len());
    assert forall|i: int| 0 <= i && i + t.len() <= w.len() implies #[trigger] w.subrange(i, i + t.len()) != t by {
        if w.subrange(i, i + t.len()) == t {
            assert(forall|k: int| 0 <= k < t.len() ==> t[k] != '\n');
            assert(forall|k: int| i <= k < i + t.len() ==> w[k] == #[trigger] t[k - i]);
            assert(forall|k: int| 0 <= k < a ==> w[k] == #[trigger] h[k]);
            assert(forall|k: int| a <= k < b ==> w[k] == #[trigger] css[k - a]);
            assert(forall|k: int| b <= k < c ==> w[k] == #[trigger] m[k - b]);
            assert(forall|k: int| c <= k < d ==> w[k] == #[trigger] body[k - c]);
            assert(forall|k: int| d <= k < w.len() ==> w[k] == #[trigger] tl[k - d]);
            if i + 10 <= a {
                assert(h.subrange(i, i + 10) =~= w.subrange(i, i + 10));
            } else if i < a {
                assert(w[a - 1] == h[a - 1]);
                assert(w[a - 1] == t[a - 1 - i]);
            } else if i + 10 <= b {
                assert(css.subrange(i - a, i - a + 10) =~= w.subrange(i, i + 10));
            } else if i <= b {
                assert(w[b] == m[0]);
                assert(w[b] == t[b - i]);
            } else if i + 10 <= c {
                assert(m.subrange(i - b, i - b + 10) =~= w.subrange(i, i + 10));
            } else if i < c {
                assert(w[c - 1] == m[c - 1 - b]);
                assert(w[c - 1] == t[c - 1 - i]);
            } else if i + 10 <= d {
                assert(body.subrange(i - c, i - c + 10) =~= w.subrange(i, i + 10));
            } else if i <= d {
                assert(w[d] == tl[0]);
                assert(w[d] == t[d - i]);
            } else {
                assert(tl.subrange(i - d, i - d + 10) =~= w.subrange(i, i + 10));
            }
        }
    }
}

/// The exported document begins with the doctype and holds the stylesheet
/// and the body unchanged.
pub proof fn lemma_export_is_standalone(css: Seq<char>, body: Seq<char>)
    ensures
        standalone_html(css, body).subrange(0, 15) == "<!doctype html>"@,
        occurs_in(css, standalone_html(css, body)),
        occurs_in(body, standalone_html(css, body)),
{
    reveal_strlit("<!doctype html>\n<html lang=\"en\">\n<head>\n<meta charset=\"UTF-8\" />\n<style>\n");
    reveal_strlit("\n</style>\n</head>\n<body class=\"markdown-body\">\n");
    reveal_strlit("<!doctype html>");
    let w = standalone_html(css, body);
    let a: int = document_head().len() as int;
    let c: int = a + css.len() + document_middle().len();
    assert(w.subrange(0, 15) =~= "<!doctype html>"@);
    assert(w.subrange(a, a + css.len()) =~= css);
    assert(w.subrange(c, c + body.len()) =~= body);
}

} // verus!
