use vstd::prelude::*;

use crate::text::{push_char, trim_str, trimmed};

verus! {

/// The text of a transcription, one line per recognized segment: each
/// segment read (`Some`) is trimmed and added, after a line break when the
/// text so far is not empty; a segment that could not be read (`None`) is
/// skipped.
pub open spec fn joined(segments: Seq<Option<Seq<char>>>) -> Seq<char>
    decreases segments.len(),
{
    if segments.len() == 0 {
        Seq::empty()
    } else {
        let prev = joined(segments.drop_last());
        match segments.last() {
            None => prev,
            Some(t) => if prev.len() == 0 {
                trimmed(t)
            } else {
                prev.push('\n') + trimmed(t)
            },
        }
    }
}

pub open spec fn segments_view(segments: Seq<Option<String>>) -> Seq<Option<Seq<char>>> {
    segments.map_values(
        |s: Option<String>|
            match s {
                Some(t) => Some(t@),
                None => None,
            },
    )
}

/// Joins the texts of recognized segments as `joined` says.
pub fn join_segment_texts(segments: &Vec<Option<String>>) -> (r: String)
    ensures
        r@ == joined(segments_view(segments@)),
{
    let ghost sv = segments_view(segments@);
    let mut result = String::new();
    let mut i: usize = 0;
    while i < segments.len()
        invariant
            i <= segments@.len(),
            sv == segments_view(segments@),
            result@ == joined(sv.take(i as int)),
        decreases segments@.len() - i,
    {
        proof {
            assert(sv.take(i + 1).drop_last() == sv.take(i as int));
        }
        match &segments[i] {
            Some(text) => {
                let t = trim_str(text.as_str());
                if !result.as_str().is_empty() {
                    push_char(&mut result, '\n');
                }
                result.append(t);
            },
            None => {},
        }
        i = i + 1;
    }
    assert(sv.take(segments@.len() as int) == sv);
    result
}

/// One line of the live transcript: `[timestamp] text` and a line break.
pub fn transcript_line(timestamp: &str, text: &str) -> (r: String)
    ensures
        r@ == "["@ + timestamp@ + "] "@ + text@ + "\n"@,
{
    let mut r = String::from_str("[");
    r.append(timestamp);
    r.append("] ");
    r.append(text);
    r.append("\n");
    r
}

/// Where the transcription of audio file `file_name` is written in
/// `output_dir`: `output_dir/transcricao_<file_name>.txt`.
pub fn transcript_file_path(output_dir: &str, file_name: &str) -> (r: String)
    ensures
        r@ == output_dir@ + "/transcricao_"@ + file_name@ + ".txt"@,
{
    let mut r = String::from_str(output_dir);
    r.append("/transcricao_");
    r.append(file_name);
    r.append(".txt");
    r
}

} // verus!
