use vstd::prelude::*;

use crate::text::{join, joined, texts};

verus! {

/// What `str::trim` leaves of a string.
pub uninterp spec fn trim_of(s: Seq<char>) -> Seq<char>;

/// Relies on `str::trim`: the string without its leading and trailing whitespace.
#[verifier::external_body]
fn trim(s: &str) -> (r: String)
    ensures
        r@ == trim_of(s@),
{
    s.trim().to_string()
}

/// The doc block for `lines` at `indent`: `suffix` alone where there are no
/// lines, else the lines between two triple-quote markers, followed by
/// `trimmed` on a line of its own.
pub open spec fn doc_text(
    lines: Seq<Seq<char>>,
    indent: Seq<char>,
    suffix: Seq<char>,
    trimmed: Seq<char>,
) -> Seq<char> {
    if lines.len() == 0 {
        suffix
    } else {
        let marker = indent + "\"\"\"\n"@;
        "\n"@ + marker + indent + joined(lines, "\n"@ + indent) + "\n"@ + marker + indent
            + trimmed
    }
}

/// The doc block for `lines`, given `trimmed`, the trimmed form of `suffix`.
pub fn format_doc_comments(
    lines: &Vec<String>,
    indent: &str,
    suffix: &str,
    trimmed: &str,
) -> (r: String)
    ensures
        r@ == doc_text(texts(lines@), indent@, suffix@, trimmed@),
{
    if lines.len() == 0 {
        return String::from_str(suffix);
    }
    let mut marker = String::from_str(indent);
    marker.append("\"\"\"\n");
    let mut sep = String::from_str("\n");
    sep.append(indent);
    let body = join(lines, sep.as_str());
    let mut r = String::from_str("\n");
    r.append(marker.as_str());
    r.append(indent);
    r.append(body.as_str());
    r.append("\n");
    r.append(marker.as_str());
    r.append(indent);
    r.append(trimmed);
    r
}

/// The doc block for `lines` at `indent`, or `suffix` where there are none.
pub fn extract_doc_comments(lines: &Vec<String>, indent: &str, suffix: &str) -> (r: String)
    ensures
        r@ == doc_text(texts(lines@), indent@, suffix@, trim_of(suffix@)),
{
    let trimmed = trim(suffix);
    format_doc_comments(lines, indent, suffix, trimmed.as_str())
}


/// Without lines the block is the suffix exactly; with lines it opens and closes
/// with a triple-quote marker line, holds the lines one per line at the indent,
/// and ends with the trimmed suffix at the indent.
pub proof fn lemma_doc_block_shape(
    lines: Seq<Seq<char>>,
    indent: Seq<char>,
    suffix: Seq<char>,
    trimmed: Seq<char>,
)
    ensures
        lines.len() == 0 ==> doc_text(lines, indent, suffix, trimmed) == suffix,
        lines.len() == 2 ==> doc_text(lines, indent, suffix, trimmed) == "\n"@ + indent
            + "\"\"\"\n"@ + indent + lines[0] + "\n"@ + indent + lines[1] + "\n"@ + indent
            + "\"\"\"\n"@ + indent + trimmed,
{
    if lines.len() == 2 {
        assert(lines.drop_last().drop_last().len() == 0);
        assert(joined(lines.drop_last(), "\n"@ + indent) == lines[0]);
        assert(doc_text(lines, indent, suffix, trimmed) =~= "\n"@ + indent + "\"\"\"\n"@ + indent
            + lines[0] + "\n"@ + indent + lines[1] + "\n"@ + indent + "\"\"\"\n"@ + indent
            + trimmed);
    }
}

} // verus!
