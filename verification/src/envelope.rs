//! The envelopes that cross the boundary: what a caller asks for, and what
//! it is told.
//!
//! A response either succeeded and carries its payload, or failed and
//! carries an error text; never both, never neither.

use vstd::prelude::*;
use crate::transcoder::{
    all_symbols, decode_spec, encode_spec, encoded_len, lemma_round_trip, payload, standard_encode,
};

verus! {

/// A request to disassemble one class file.
#[derive(Debug)]
pub struct DecompileRequest {
    /// The caller's label for the class file. It is echoed, never read.
    pub file_path: String,
    /// The bytes of the class file, encoded as text.
    pub base64_content: String,
    /// Handed on to the disassembler.
    pub roundtrip: bool,
    /// Handed on to the class-file parser.
    pub no_short_code_attr: bool,
}

/// A request to assemble one source text.
#[derive(Debug)]
pub struct AssembleRequest {
    /// The caller's label for the source. It is echoed, never read.
    pub file_path: String,
    /// The source text.
    pub source_code: String,
}

/// The answer to a [`DecompileRequest`].
#[derive(Debug)]
pub struct DecompileResponse {
    /// Whether the class file was disassembled.
    pub success: bool,
    /// The label of the request, or `unknown` where the request could not be read.
    pub file_path: String,
    /// The disassembly.
    pub output: Option<String>,
    /// Why there is no disassembly.
    pub error: Option<String>,
}

/// One class file that an assembly produced.
#[derive(Debug)]
pub struct ClassFileResult {
    /// The name of the class, where it could be determined.
    pub name: Option<String>,
    /// The bytes of the class file, encoded as text.
    pub base64_content: String,
}

/// The answer to an [`AssembleRequest`].
#[derive(Debug)]
pub struct AssembleResponse {
    /// Whether the source was assembled.
    pub success: bool,
    /// The label of the request, or `unknown` where the request could not be read.
    pub file_path: String,
    /// The class files, in the order in which the assembler produced them.
    pub class_files: Option<Vec<ClassFileResult>>,
    /// Why there are no class files.
    pub error: Option<String>,
}

/// The characters of a text that may be absent.
pub open spec fn optional_text(text: Option<String>) -> Option<Seq<char>> {
    match text {
        Some(s) => Some(s@),
        None => None,
    }
}

/// A class file result as plain values.
pub struct ClassFileView {
    pub name: Option<Seq<char>>,
    pub base64_content: Seq<char>,
}

impl View for ClassFileResult {
    type V = ClassFileView;

    open spec fn view(&self) -> ClassFileView {
        ClassFileView {
            name: optional_text(self.name),
            base64_content: self.base64_content@,
        }
    }
}

/// The class file results of a list, as plain values.
pub open spec fn class_file_views(files: Seq<ClassFileResult>) -> Seq<ClassFileView> {
    files.map_values(|f: ClassFileResult| f@)
}

/// A decompile response as plain values.
pub struct DecompileResponseView {
    pub success: bool,
    pub file_path: Seq<char>,
    pub output: Option<Seq<char>>,
    pub error: Option<Seq<char>>,
}

/// An assemble response as plain values.
pub struct AssembleResponseView {
    pub success: bool,
    pub file_path: Seq<char>,
    pub class_files: Option<Seq<ClassFileView>>,
    pub error: Option<Seq<char>>,
}

impl DecompileResponseView {
    /// The response that carries the disassembly `output`.
    pub open spec fn success(file_path: Seq<char>, output: Seq<char>) -> DecompileResponseView {
        DecompileResponseView { success: true, file_path, output: Some(output), error: None }
    }

    /// The response that carries the error text `error`.
    pub open spec fn error(file_path: Seq<char>, error: Seq<char>) -> DecompileResponseView {
        DecompileResponseView { success: false, file_path, output: None, error: Some(error) }
    }

    /// Success carries a payload and no error; failure carries an error
    /// and no payload.
    pub open spec fn well_formed(self) -> bool {
        if self.success {
            self.output is Some && self.error is None
        } else {
            self.output is None && self.error is Some
        }
    }
}

impl AssembleResponseView {
    /// The response that carries the class files `class_files`.
    pub open spec fn success(
        file_path: Seq<char>,
        class_files: Seq<ClassFileView>,
    ) -> AssembleResponseView {
        AssembleResponseView {
            success: true,
            file_path,
            class_files: Some(class_files),
            error: None,
        }
    }

    /// The response that carries the error text `error`.
    pub open spec fn error(file_path: Seq<char>, error: Seq<char>) -> AssembleResponseView {
        AssembleResponseView { success: false, file_path, class_files: None, error: Some(error) }
    }

    /// Success carries a payload and no error; failure carries an error
    /// and no payload.
    pub open spec fn well_formed(self) -> bool {
        if self.success {
            self.class_files is Some && self.error is None
        } else {
            self.class_files is None && self.error is Some
        }
    }
}

impl View for DecompileResponse {
    type V = DecompileResponseView;

    open spec fn view(&self) -> DecompileResponseView {
        DecompileResponseView {
            success: self.success,
            file_path: self.file_path@,
            output: optional_text(self.output),
            error: optional_text(self.error),
        }
    }
}

impl View for AssembleResponse {
    type V = AssembleResponseView;

    open spec fn view(&self) -> AssembleResponseView {
        AssembleResponseView {
            success: self.success,
            file_path: self.file_path@,
            class_files: match self.class_files {
                Some(files) => Some(class_file_views(files@)),
                None => None,
            },
            error: optional_text(self.error),
        }
    }
}

impl DecompileRequest {
    /// The request to disassemble the class file `class_data` with every
    /// option off. Its content decodes to `class_data` again.
    pub fn for_class_file(file_path: String, class_data: &[u8]) -> (request: Self)
        requires
            encoded_len(class_data@.len()) <= usize::MAX,
        ensures
            request.file_path == file_path,
            request.base64_content@ == encode_spec(class_data@),
            !request.roundtrip,
            !request.no_short_code_attr,
            all_symbols(payload(request.base64_content@)),
            decode_spec(payload(request.base64_content@)) == class_data@,
    {
        proof {
            lemma_round_trip(class_data@);
        }
        Self {
            file_path,
            base64_content: standard_encode(class_data),
            roundtrip: false,
            no_short_code_attr: false,
        }
    }
}

impl DecompileResponse {
    /// The response to a request that was served.
    pub fn success(file_path: String, output: String) -> (r: Self)
        ensures
            r == (DecompileResponse { success: true, file_path, output: Some(output), error: None }),
            r@ == DecompileResponseView::success(file_path@, output@),
            r@.well_formed(),
    {
        Self { success: true, file_path, output: Some(output), error: None }
    }

    /// The response to a request that failed.
    pub fn error(file_path: String, error: String) -> (r: Self)
        ensures
            r == (DecompileResponse { success: false, file_path, output: None, error: Some(error) }),
            r@ == DecompileResponseView::error(file_path@, error@),
            r@.well_formed(),
    {
        Self { success: false, file_path, output: None, error: Some(error) }
    }
}

impl AssembleResponse {
    /// The response to a request that was served.
    pub fn success(file_path: String, class_files: Vec<ClassFileResult>) -> (r: Self)
        ensures
            r == (AssembleResponse {
                success: true,
                file_path,
                class_files: Some(class_files),
                error: None,
            }),
            r@ == AssembleResponseView::success(file_path@, class_file_views(class_files@)),
            r@.well_formed(),
    {
        Self { success: true, file_path, class_files: Some(class_files), error: None }
    }

    /// The response to a request that failed.
    pub fn error(file_path: String, error: String) -> (r: Self)
        ensures
            r == (AssembleResponse {
                success: false,
                file_path,
                class_files: None,
                error: Some(error),
            }),
            r@ == AssembleResponseView::error(file_path@, error@),
            r@.well_formed(),
    {
        Self { success: false, file_path, class_files: None, error: Some(error) }
    }
}

} // verus!
