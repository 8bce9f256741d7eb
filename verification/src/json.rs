//! The response envelopes as JSON text.
//!
//! An envelope is written as one JSON object without white space, its
//! fields in the order in which the envelope declares them, an absent field
//! as `null`. How a text becomes a JSON string literal is left to
//! `serde_json`.

use vstd::prelude::*;
use crate::envelope::{
    class_file_views, optional_text, AssembleResponse, AssembleResponseView, ClassFileResult,
    ClassFileView, DecompileResponse, DecompileResponseView,
};

verus! {

/// What `serde_json::to_string` returns for the text `s`: the JSON string
/// literal for `s`, or the serializer's error, rendered as text.
pub uninterp spec fn json_string_literal(s: Seq<char>) -> Result<Seq<char>, Seq<char>>;

/// `serde_json::to_string` on a text. The result depends on the text alone;
/// an error is rendered through `Display`.
#[verifier::external_body]
fn json_string(s: &str) -> (r: Result<String, String>)
    ensures
        match r {
            Ok(literal) => json_string_literal(s@) == Ok::<Seq<char>, Seq<char>>(literal@),
            Err(reason) => json_string_literal(s@) == Err::<Seq<char>, Seq<char>>(reason@),
        },
{
    match serde_json::to_string(s) {
        Ok(literal) => Ok(literal),
        Err(e) => Err(e.to_string()),
    }
}

/// The JSON for a truth value.
pub open spec fn bool_json(b: bool) -> Seq<char> {
    if b {
        "true"@
    } else {
        "false"@
    }
}

/// The JSON for a text that may be absent.
pub open spec fn optional_json(text: Option<Seq<char>>) -> Result<Seq<char>, Seq<char>> {
    match text {
        Some(s) => json_string_literal(s),
        None => Ok("null"@),
    }
}

/// The JSON for a decompile response, or the first error of the serializer.
pub open spec fn decompile_response_json(r: DecompileResponseView) -> Result<
    Seq<char>,
    Seq<char>,
> {
    match json_string_literal(r.file_path) {
        Err(reason) => Err(reason),
        Ok(file_path) => match optional_json(r.output) {
            Err(reason) => Err(reason),
            Ok(output) => match optional_json(r.error) {
                Err(reason) => Err(reason),
                Ok(error) => Ok(
                    "{\"success\":"@ + bool_json(r.success) + ",\"file_path\":"@ + file_path
                        + ",\"output\":"@ + output + ",\"error\":"@ + error + "}"@,
                ),
            },
        },
    }
}

/// The JSON for one class file result, or the first error of the serializer.
pub open spec fn class_file_json(f: ClassFileView) -> Result<Seq<char>, Seq<char>> {
    match optional_json(f.name) {
        Err(reason) => Err(reason),
        Ok(name) => match json_string_literal(f.base64_content) {
            Err(reason) => Err(reason),
            Ok(content) => Ok("{\"name\":"@ + name + ",\"base64_content\":"@ + content + "}"@),
        },
    }
}

/// The JSON for class file results, one after the other with commas
/// between them, or the first error of the serializer.
pub open spec fn class_files_json(files: Seq<ClassFileView>) -> Result<Seq<char>, Seq<char>>
    decreases files.len(),
{
    if files.len() == 0 {
        Ok(Seq::empty())
    } else {
        match class_files_json(files.drop_last()) {
            Err(reason) => Err(reason),
            Ok(before) => match class_file_json(files.last()) {
                Err(reason) => Err(reason),
                Ok(item) => Ok(
                    if files.len() == 1 {
                        item
                    } else {
                        before + ","@ + item
                    },
                ),
            },
        }
    }
}

/// The JSON for a list of class file results that may be absent.
pub open spec fn optional_class_files_json(files: Option<Seq<ClassFileView>>) -> Result<
    Seq<char>,
    Seq<char>,
> {
    match files {
        None => Ok("null"@),
        Some(files) => match class_files_json(files) {
            Err(reason) => Err(reason),
            Ok(items) => Ok("["@ + items + "]"@),
        },
    }
}

/// The JSON for an assemble response, or the first error of the serializer.
pub open spec fn assemble_response_json(r: AssembleResponseView) -> Result<Seq<char>, Seq<char>> {
    match json_string_literal(r.file_path) {
        Err(reason) => Err(reason),
        Ok(file_path) => match optional_class_files_json(r.class_files) {
            Err(reason) => Err(reason),
            Ok(class_files) => match optional_json(r.error) {
                Err(reason) => Err(reason),
                Ok(error) => Ok(
                    "{\"success\":"@ + bool_json(r.success) + ",\"file_path\":"@ + file_path
                        + ",\"class_files\":"@ + class_files + ",\"error\":"@ + error + "}"@,
                ),
            },
        },
    }
}

/// Whether `r` is `expected`, text for text and error for error.
pub open spec fn renders(r: Result<String, String>, expected: Result<Seq<char>, Seq<char>>) -> bool {
    match r {
        Ok(text) => expected == Ok::<Seq<char>, Seq<char>>(text@),
        Err(reason) => expected == Err::<Seq<char>, Seq<char>>(reason@),
    }
}

/// The JSON for a text that may be absent.
fn optional_to_json(text: &Option<String>) -> (r: Result<String, String>)
    ensures
        renders(r, optional_json(optional_text(*text))),
{
    match text {
        Some(s) => json_string(s.as_str()),
        None => Ok(String::from_str("null")),
    }
}

/// The JSON object with the fields of a response: `payload_key` is the
/// quoted name of its payload field with the comma before and the colon
/// after it.
fn response_object(success: bool, file_path: &str, payload_key: &str, payload: &str, error: &str) -> (text:
    String)
    ensures
        text@ == "{\"success\":"@ + bool_json(success) + ",\"file_path\":"@ + file_path@
            + payload_key@ + payload@ + ",\"error\":"@ + error@ + "}"@,
{
    let mut text = String::from_str("{\"success\":");
    if success {
        text.append("true");
    } else {
        text.append("false");
    }
    text.append(",\"file_path\":");
    text.append(file_path);
    text.append(payload_key);
    text.append(payload);
    text.append(",\"error\":");
    text.append(error);
    text.append("}");
    text
}

/// Writes a decompile response as JSON.
pub fn decompile_response_to_json(response: &DecompileResponse) -> (r: Result<String, String>)
    ensures
        renders(r, decompile_response_json(response@)),
{
    let file_path = match json_string(response.file_path.as_str()) {
        Ok(literal) => literal,
        Err(reason) => {
            return Err(reason);
        },
    };
    let output = match optional_to_json(&response.output) {
        Ok(literal) => literal,
        Err(reason) => {
            return Err(reason);
        },
    };
    let error = match optional_to_json(&response.error) {
        Ok(literal) => literal,
        Err(reason) => {
            return Err(reason);
        },
    };
    Ok(
        response_object(
            response.success,
            file_path.as_str(),
            ",\"output\":",
            output.as_str(),
            error.as_str(),
        ),
    )
}

/// Writes one class file result as JSON.
fn class_file_to_json(file: &ClassFileResult) -> (r: Result<String, String>)
    ensures
        renders(r, class_file_json(file@)),
{
    let name = match optional_to_json(&file.name) {
        Ok(literal) => literal,
        Err(reason) => {
            return Err(reason);
        },
    };
    let content = match json_string(file.base64_content.as_str()) {
        Ok(literal) => literal,
        Err(reason) => {
            return Err(reason);
        },
    };
    let mut text = String::from_str("{\"name\":");
    text.append(name.as_str());
    text.append(",\"base64_content\":");
    text.append(content.as_str());
    text.append("}");
    Ok(text)
}

/// Writes a list of class file results, which may be absent, as JSON.
fn optional_class_files_to_json(files: &Option<Vec<ClassFileResult>>) -> (r: Result<
    String,
    String,
>)
    ensures
        renders(
            r,
            optional_class_files_json(
                match *files {
                    Some(list) => Some(class_file_views(list@)),
                    None => None,
                },
            ),
        ),
{
    match files {
        None => Ok(String::from_str("null")),
        Some(list) => {
            let ghost views = class_file_views(list@);
            let mut text = String::from_str("[");
            let mut i: usize = 0;
            while i < list.len()
                invariant
                    *files == Some(*list),
                    i <= list@.len(),
                    views == class_file_views(list@),
                    views.len() == list@.len(),
                    class_files_json(views.take(i as int)) is Ok,
                    text@ == "["@ + class_files_json(views.take(i as int))->Ok_0,
                decreases list@.len() - i,
            {
                let item = class_file_to_json(&list[i]);
                proof {
                    assert(views.take(i + 1).drop_last() =~= views.take(i as int));
                    assert(views.take(i + 1).last() == list@[i as int]@);
                    if i + 1 == list@.len() {
                        assert(views.take(i + 1) =~= views);
                    }
                }
                match item {
                    Err(reason) => {
                        proof {
                            let failed = Err::<Seq<char>, Seq<char>>(reason@);
                            assert(class_file_json(views.take(i + 1).last()) == failed);
                            assert(class_files_json(views.take(i + 1)) == failed);
                            lemma_class_files_json_fails(views, i + 1);
                        }
                        return Err(reason);
                    },
                    Ok(literal) => {
                        if i > 0 {
                            text.append(",");
                        }
                        text.append(literal.as_str());
                        proof {
                            let before = class_files_json(views.take(i as int))->Ok_0;
                            if i > 0 {
                                assert(("["@ + before) + ","@ + literal@ =~= "["@ + (before + ","@
                                    + literal@));
                            } else {
                                assert(views.take(0) =~= Seq::<ClassFileView>::empty());
                                assert(before =~= Seq::<char>::empty());
                                assert(("["@ + before) + literal@ =~= "["@ + literal@);
                            }
                        }
                    },
                }
                i = i + 1;
            }
            proof {
                assert(views.take(i as int) =~= views);
            }
            text.append("]");
            Ok(text)
        },
    }
}

/// Where the class file results up to some place cannot be written, the
/// whole list cannot, for the same reason.
proof fn lemma_class_files_json_fails(files: Seq<ClassFileView>, upto: int)
    requires
        0 <= upto <= files.len(),
        class_files_json(files.take(upto)) is Err,
    ensures
        class_files_json(files) == class_files_json(files.take(upto)),
    decreases files.len() - upto,
{
    if upto == files.len() {
        assert(files.take(upto) =~= files);
    } else {
        assert(files.take(upto + 1).drop_last() =~= files.take(upto));
        lemma_class_files_json_fails(files, upto + 1);
    }
}

/// Writes an assemble response as JSON.
pub fn assemble_response_to_json(response: &AssembleResponse) -> (r: Result<String, String>)
    ensures
        renders(r, assemble_response_json(response@)),
{
    let file_path = match json_string(response.file_path.as_str()) {
        Ok(literal) => literal,
        Err(reason) => {
            return Err(reason);
        },
    };
    let class_files = match optional_class_files_to_json(&response.class_files) {
        Ok(literal) => literal,
        Err(reason) => {
            return Err(reason);
        },
    };
    let error = match optional_to_json(&response.error) {
        Ok(literal) => literal,
        Err(reason) => {
            return Err(reason);
        },
    };
    Ok(
        response_object(
            response.success,
            file_path.as_str(),
            ",\"class_files\":",
            class_files.as_str(),
            error.as_str(),
        ),
    )
}

} // verus!
