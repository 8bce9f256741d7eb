//! The request/response protocol: the steps of the two operations, and the
//! single slot through which a response is handed back.
//!
//! An operation alternates between decisions, which are made here, and the
//! work of the assembler or disassembler, which is not: each step takes what
//! the work before it returned and says what is to be done next.
//!
//! At most one response buffer exists at a time. Storing a response first
//! releases the one before it.

use vstd::prelude::*;
use vstd::utf8::{decode_utf8, encode_utf8, valid_utf8};
use crate::allocator::{
    first_fit, has_room, lemma_written, written, Allocator, Buffer, ALIGNMENT, INPUT_CEILING,
    MAX_CAPACITY, RESPONSE_CEILING,
};
use crate::envelope::{
    optional_text, AssembleRequest, AssembleResponse, AssembleResponseView, ClassFileResult,
    ClassFileView, DecompileRequest, DecompileResponse, DecompileResponseView,
};
use crate::json::{
    assemble_response_json, assemble_response_to_json, decompile_response_json,
    decompile_response_to_json,
};
use crate::text::{text_from_utf8, utf8_error_text};
use crate::transcoder::{
    all_symbols, decode_base64, decode_spec, encode_base64, encode_spec, payload,
};

verus! {

/// The status of an operation that was not attempted, or whose response
/// could not be stored.
pub const FAILURE: i32 = -1;

/// `prefix` followed by `rest`.
fn prefixed(prefix: &str, rest: &str) -> (text: String)
    ensures
        text@ == prefix@ + rest@,
{
    String::from_str(prefix).concat(rest)
}

/// What is to be done next for a decompile request.
#[derive(Debug)]
pub enum DecompileStep {
    /// Nothing is left to do: this is the response.
    Respond(DecompileResponse),
    /// The class file `class_data` is to be disassembled with these options.
    Disassemble { file_path: String, class_data: Vec<u8>, roundtrip: bool, no_short_code_attr: bool },
}

/// What is to be done next for an assemble request.
#[derive(Debug)]
pub enum AssembleStep {
    /// Nothing is left to do: this is the response.
    Respond(AssembleResponse),
    /// The source text `source_code` is to be assembled.
    Assemble { file_path: String, source_code: String },
}

/// The first step of a decompile operation. `parsed` is the request as it
/// was read, or the reason why it could not be read.
///
/// A request that could not be read is answered with an error under the
/// label `unknown`; one whose content is not valid text encoding, with an
/// error under its own label. Every other request is to be disassembled.
pub fn begin_decompile(parsed: Result<DecompileRequest, String>) -> (step: DecompileStep)
    ensures
        match parsed {
            Err(reason) => step matches DecompileStep::Respond(r) && r@
                == DecompileResponseView::error("unknown"@, "JSON parse error: "@ + reason@),
            Ok(request) => if all_symbols(payload(request.base64_content@)) {
                &&& step matches DecompileStep::Disassemble {
                    file_path,
                    class_data,
                    roundtrip,
                    no_short_code_attr,
                }
                &&& file_path == request.file_path
                &&& class_data@ == decode_spec(payload(request.base64_content@))
                &&& roundtrip == request.roundtrip
                &&& no_short_code_attr == request.no_short_code_attr
            } else {
                step matches DecompileStep::Respond(r) && r@ == DecompileResponseView::error(
                    request.file_path@,
                    "Base64 decode error: Invalid base64 character"@,
                )
            },
        },
{
    match parsed {
        Err(reason) => DecompileStep::Respond(
            DecompileResponse::error(
                String::from_str("unknown"),
                prefixed("JSON parse error: ", reason.as_str()),
            ),
        ),
        Ok(request) => match decode_base64(request.base64_content.as_str()) {
            Err(e) => {
                let message = e.message();
                proof {
                    lemma_decode_error_text();
                }
                DecompileStep::Respond(
                    DecompileResponse::error(
                        request.file_path,
                        prefixed("Base64 decode error: ", message.as_str()),
                    ),
                )
            },
            Ok(class_data) => DecompileStep::Disassemble {
                file_path: request.file_path,
                class_data,
                roundtrip: request.roundtrip,
                no_short_code_attr: request.no_short_code_attr,
            },
        },
    }
}

/// The text of a decode error, with what stands before it, is one text.
proof fn lemma_decode_error_text()
    ensures
        "Base64 decode error: "@ + "Invalid base64 character"@
            == "Base64 decode error: Invalid base64 character"@,
{
    reveal_strlit("Base64 decode error: ");
    reveal_strlit("Invalid base64 character");
    reveal_strlit("Base64 decode error: Invalid base64 character");
    assert("Base64 decode error: "@ + "Invalid base64 character"@
        =~= "Base64 decode error: Invalid base64 character"@);
}

/// The response to a decompile request labelled `file_path`, given what
/// the disassembler returned.
pub open spec fn decompile_outcome(
    file_path: Seq<char>,
    outcome: Result<Seq<u8>, Seq<char>>,
) -> DecompileResponseView {
    match outcome {
        Ok(output) => if valid_utf8(output) {
            DecompileResponseView::success(file_path, decode_utf8(output))
        } else {
            DecompileResponseView::error(
                file_path,
                "Output encoding error: "@ + utf8_error_text(output),
            )
        },
        Err(reason) => DecompileResponseView::error(
            file_path,
            "Decompilation error: "@ + reason,
        ),
    }
}

/// The last step of a decompile operation. `outcome` is what the
/// disassembler wrote, or its error as text.
///
/// Output that is not UTF-8 is reported as an encoding error, an error of
/// the disassembler as a decompilation error.
pub fn finish_decompile(file_path: String, outcome: Result<Vec<u8>, String>) -> (r:
    DecompileResponse)
    ensures
        r@ == decompile_outcome(
            file_path@,
            match outcome {
                Ok(output) => Ok(output@),
                Err(reason) => Err(reason@),
            },
        ),
        r@.well_formed(),
{
    match outcome {
        Ok(output) => match text_from_utf8(output) {
            Ok(text) => DecompileResponse::success(file_path, text),
            Err(reason) => DecompileResponse::error(
                file_path,
                prefixed("Output encoding error: ", reason.as_str()),
            ),
        },
        Err(reason) => DecompileResponse::error(
            file_path,
            prefixed("Decompilation error: ", reason.as_str()),
        ),
    }
}

/// The first step of an assemble operation. `parsed` is the request as it
/// was read, or the reason why it could not be read.
pub fn begin_assemble(parsed: Result<AssembleRequest, String>) -> (step: AssembleStep)
    ensures
        match parsed {
            Err(reason) => step matches AssembleStep::Respond(r) && r@
                == AssembleResponseView::error("unknown"@, "JSON parse error: "@ + reason@),
            Ok(request) => step matches AssembleStep::Assemble { file_path, source_code }
                && file_path == request.file_path && source_code == request.source_code,
        },
{
    match parsed {
        Err(reason) => AssembleStep::Respond(
            AssembleResponse::error(
                String::from_str("unknown"),
                prefixed("JSON parse error: ", reason.as_str()),
            ),
        ),
        Ok(request) => AssembleStep::Assemble {
            file_path: request.file_path,
            source_code: request.source_code,
        },
    }
}

/// One class as the assembler returns it, turned into a class file result.
pub open spec fn class_file_of(class: (Option<String>, Vec<u8>)) -> ClassFileView {
    ClassFileView { name: optional_text(class.0), base64_content: encode_spec(class.1@) }
}

/// The response to an assemble request labelled `file_path`, given what
/// the assembler returned.
pub open spec fn assemble_outcome(
    file_path: Seq<char>,
    outcome: Result<Vec<(Option<String>, Vec<u8>)>, String>,
) -> AssembleResponseView {
    match outcome {
        Ok(classes) => AssembleResponseView::success(
            file_path,
            classes@.map_values(|class: (Option<String>, Vec<u8>)| class_file_of(class)),
        ),
        Err(reason) => AssembleResponseView::error(file_path, "Assembly error: "@ + reason@),
    }
}

/// The last step of an assemble operation. `outcome` is the classes that
/// the assembler produced, each with its name where it has one, or the
/// assembler's error as text.
///
/// Every class becomes one class file result, in the same order.
pub fn finish_assemble(
    file_path: String,
    outcome: Result<Vec<(Option<String>, Vec<u8>)>, String>,
) -> (r: AssembleResponse)
    ensures
        r@ == assemble_outcome(file_path@, outcome),
        r@.well_formed(),
{
    match outcome {
        Ok(classes) => {
            let mut class_results: Vec<ClassFileResult> = Vec::new();
            let mut i: usize = 0;
            while i < classes.len()
                invariant
                    i <= classes@.len(),
                    class_results@.len() == i,
                    forall|k: int|
                        0 <= k < i ==> (#[trigger] class_results@[k])@ == class_file_of(classes@[k]),
                decreases classes@.len() - i,
            {
                let name = match &classes[i].0 {
                    Some(n) => Some(n.clone()),
                    None => None,
                };
                let base64_content = encode_base64(classes[i].1.as_slice());
                class_results.push(ClassFileResult { name, base64_content });
                i = i + 1;
            }
            proof {
                assert(class_results@.map_values(|f: ClassFileResult| f@) =~= classes@.map_values(
                    |class: (Option<String>, Vec<u8>)| class_file_of(class),
                ));
            }
            AssembleResponse::success(file_path, class_results)
        },
        Err(reason) => AssembleResponse::error(
            file_path,
            prefixed("Assembly error: ", reason.as_str()),
        ),
    }
}

/// The linear memory that both sides of the boundary reach, and the slot
/// that holds the latest response.
pub struct Boundary {
    allocator: Allocator,
    response: Buffer,
}

impl Boundary {
    /// The invariant of the boundary: the allocator's own, and that the
    /// response, where there is one, lies in a region that is taken.
    pub closed spec fn inv(&self) -> bool {
        &&& self.allocator.inv()
        &&& if self.response.ptr == 0 {
            self.response.len == 0
        } else {
            self.allocator.live().contains(self.response) && self.response.len < RESPONSE_CEILING
        }
    }

    /// The number of bytes of memory.
    pub closed spec fn capacity(&self) -> nat {
        self.allocator.capacity()
    }

    /// The bytes of memory.
    pub closed spec fn memory(&self) -> Seq<u8> {
        self.allocator.contents()
    }

    /// The regions that are taken, the one of the response among them.
    pub closed spec fn live(&self) -> Set<Buffer> {
        self.allocator.live()
    }

    /// The region of the response, where one is stored.
    pub closed spec fn response(&self) -> Option<Buffer> {
        if self.response.ptr == 0 {
            None
        } else {
            Some(self.response)
        }
    }

    /// The regions that the caller has taken for input.
    pub open spec fn inputs(&self) -> Set<Buffer> {
        match self.response() {
            Some(r) => self.live().remove(r),
            None => self.live(),
        }
    }

    /// The bytes of the response; none where no response is stored.
    pub open spec fn response_bytes(&self) -> Seq<u8> {
        match self.response() {
            Some(r) => self.memory().subrange(r.ptr as int, r.end()),
            None => Seq::empty(),
        }
    }

    /// What the invariant says of the regions that are taken: each lies in
    /// the memory, at an aligned address that is not null; no two of them
    /// share a byte; and the response is one of them.
    pub proof fn lemma_inv(&self)
        requires
            self.inv(),
        ensures
            self.memory().len() == self.capacity(),
            self.capacity() <= MAX_CAPACITY,
            forall|r: Buffer| #[trigger]
                self.live().contains(r) ==> {
                    &&& r.ptr >= ALIGNMENT
                    &&& r.ptr % ALIGNMENT == 0
                    &&& r.len > 0
                    &&& r.end() <= self.capacity()
                },
            forall|a: Buffer, b: Buffer|
                #![trigger self.live().contains(a), self.live().contains(b)]
                self.live().contains(a) && self.live().contains(b) && a != b ==> !a.overlaps(
                    b.ptr as int,
                    b.len as int,
                ),
            self.response() matches Some(r) ==> self.live().contains(r) && r.len
                < RESPONSE_CEILING,
    {
        self.allocator.lemma_live();
    }

    /// A boundary over a memory of `capacity` zero bytes, or of
    /// [`MAX_CAPACITY`] where `capacity` is larger, with no region taken and
    /// no response stored.
    pub fn new(capacity: usize) -> (b: Boundary)
        ensures
            b.inv(),
            b.capacity() == if capacity <= MAX_CAPACITY {
                capacity
            } else {
                MAX_CAPACITY
            },
            b.memory() == Seq::new(b.capacity(), |i: int| 0u8),
            b.live() == Set::<Buffer>::empty(),
            b.response() is None,
    {
        Boundary { allocator: Allocator::new(capacity), response: Buffer { ptr: 0, len: 0 } }
    }

    /// The memory itself.
    pub fn bytes(&self) -> (bytes: &[u8])
        ensures
            bytes@ == self.memory(),
    {
        self.allocator.memory()
    }
}

/// Takes a buffer of `data_len` bytes for the caller to fill with a request.
///
/// The result is the address of the buffer, or the null pointer where
/// `data_len` is zero or not below [`INPUT_CEILING`], or where no free region
/// is large enough. The buffer is the lowest free region of that size: it
/// shares no byte with a region that was taken before.
pub fn allocate_input_buffer(boundary: &mut Boundary, data_len: usize) -> (ptr: usize)
    requires
        old(boundary).inv(),
    ensures
        final(boundary).inv(),
        final(boundary).capacity() == old(boundary).capacity(),
        final(boundary).memory() == old(boundary).memory(),
        final(boundary).response() == old(boundary).response(),
        ptr == 0 <==> data_len == 0 || data_len >= INPUT_CEILING || !has_room(
            old(boundary).capacity(),
            old(boundary).live(),
            data_len as int,
        ),
        ptr == 0 ==> final(boundary).live() == old(boundary).live(),
        ptr != 0 ==> first_fit(
            old(boundary).capacity(),
            old(boundary).live(),
            ptr as int,
            data_len as int,
        ) && final(boundary).live() == old(boundary).live().insert(Buffer { ptr, len: data_len }),
{
    boundary.allocator.allocate_input(data_len)
}

/// Gives back the input buffer that is exactly `(ptr, len)`. Where the
/// caller has taken no such buffer, nothing changes; the response is not
/// released this way.
pub fn free_buffer(boundary: &mut Boundary, ptr: usize, len: usize)
    requires
        old(boundary).inv(),
    ensures
        final(boundary).inv(),
        final(boundary).capacity() == old(boundary).capacity(),
        final(boundary).memory() == old(boundary).memory(),
        final(boundary).response() == old(boundary).response(),
        final(boundary).inputs() == old(boundary).inputs().remove(Buffer { ptr, len }),
{
    proof {
        boundary.lemma_inv();
    }
    if boundary.response.ptr == ptr && boundary.response.len == len {
        proof {
            assert(!boundary.inputs().contains(Buffer { ptr, len }));
            assert(boundary.inputs() =~= boundary.inputs().remove(Buffer { ptr, len }));
        }
        return ;
    }
    boundary.allocator.free(ptr, len);
    proof {
        assert(boundary.inputs() =~= old(boundary).inputs().remove(Buffer { ptr, len }));
    }
}

/// The request that the caller wrote into the `len` bytes at `ptr`.
///
/// There is none where `ptr` is null or `len` is zero, nor where the bytes
/// do not all lie in one input buffer that the caller has taken.
pub fn request_bytes(boundary: &Boundary, ptr: usize, len: usize) -> (bytes: Option<Vec<u8>>)
    requires
        boundary.inv(),
    ensures
        bytes is Some <==> ptr != 0 && len != 0 && exists|r: Buffer| #[trigger]
            boundary.inputs().contains(r) && r.covers(ptr as int, len as int),
        bytes matches Some(b) ==> b@ == boundary.memory().subrange(ptr as int, ptr + len),
{
    if ptr == 0 || len == 0 {
        return None;
    }
    proof {
        boundary.lemma_inv();
    }
    match boundary.allocator.region_of(ptr, len) {
        None => None,
        Some(r) => {
            if r.ptr == boundary.response.ptr && r.len == boundary.response.len {
                proof {
                    assert forall|other: Buffer| #[trigger]
                        boundary.inputs().contains(other) implies !other.covers(
                        ptr as int,
                        len as int,
                    ) by {
                        if other.covers(ptr as int, len as int) {
                            assert(other.overlaps(r.ptr as int, r.len as int));
                        }
                    }
                }
                None
            } else {
                proof {
                    assert(boundary.inputs().contains(r));
                }
                Some(boundary.allocator.load(ptr, len))
            }
        },
    }
}

/// Writes `data` at `ptr`, as the caller does when it fills an input
/// buffer. Nothing is written unless there is a byte to write and the bytes
/// all lie in one input buffer that the caller has taken; the result says
/// whether that was so.
pub fn write_input(boundary: &mut Boundary, ptr: usize, data: &[u8]) -> (done: bool)
    requires
        old(boundary).inv(),
    ensures
        final(boundary).inv(),
        final(boundary).capacity() == old(boundary).capacity(),
        final(boundary).live() == old(boundary).live(),
        final(boundary).response() == old(boundary).response(),
        done <==> data@.len() > 0 && exists|r: Buffer| #[trigger]
            old(boundary).inputs().contains(r) && r.covers(ptr as int, data@.len() as int),
        final(boundary).memory() == if done {
            written(old(boundary).memory(), ptr as int, data@)
        } else {
            old(boundary).memory()
        },
        final(boundary).response_bytes() == old(boundary).response_bytes(),
{
    if data.len() == 0 {
        return false;
    }
    proof {
        boundary.lemma_inv();
    }
    match boundary.allocator.region_of(ptr, data.len()) {
        None => false,
        Some(r) => {
            if r.ptr == boundary.response.ptr && r.len == boundary.response.len {
                proof {
                    assert forall|other: Buffer| #[trigger]
                        boundary.inputs().contains(other) implies !other.covers(
                        ptr as int,
                        data@.len() as int,
                    ) by {
                        if other.covers(ptr as int, data@.len() as int) {
                            assert(other.overlaps(r.ptr as int, r.len as int));
                        }
                    }
                }
                false
            } else {
                proof {
                    assert(boundary.inputs().contains(r));
                    if boundary.response() is Some {
                        let held = boundary.response()->Some_0;
                        assert(!held.overlaps(r.ptr as int, r.len as int));
                        lemma_written(boundary.memory(), ptr as int, data@, held);
                    }
                }
                boundary.allocator.fill(ptr, data);
                true
            }
        },
    }
}

/// The length of the stored response in bytes; zero where none is stored.
pub fn get_response_length(boundary: &Boundary) -> (len: i32)
    requires
        boundary.inv(),
    ensures
        len == match boundary.response() {
            Some(r) => r.len as int,
            None => 0,
        },
{
    boundary.response.len as i32
}

/// The address of the stored response; the null pointer where none is
/// stored.
pub fn get_response_ptr(boundary: &Boundary) -> (ptr: usize)
    requires
        boundary.inv(),
    ensures
        ptr == match boundary.response() {
            Some(r) => r.ptr,
            None => 0,
        },
{
    boundary.response.ptr
}

/// The bytes of the stored response, as the caller reads them through
/// its address and length; none where no response is stored.
pub fn read_response(boundary: &Boundary) -> (bytes: Vec<u8>)
    requires
        boundary.inv(),
    ensures
        bytes@ == boundary.response_bytes(),
{
    proof {
        boundary.lemma_inv();
    }
    if boundary.response.ptr == 0 {
        Vec::new()
    } else {
        boundary.allocator.load(boundary.response.ptr, boundary.response.len)
    }
}

/// Releases the stored response. Where none is stored, nothing changes.
pub fn free_response(boundary: &mut Boundary)
    requires
        old(boundary).inv(),
    ensures
        final(boundary).inv(),
        final(boundary).capacity() == old(boundary).capacity(),
        final(boundary).memory() == old(boundary).memory(),
        final(boundary).response() is None,
        final(boundary).live() == old(boundary).inputs(),
{
    if boundary.response.ptr != 0 {
        boundary.allocator.free(boundary.response.ptr, boundary.response.len);
    }
    boundary.response = Buffer { ptr: 0, len: 0 };
}

/// How storing the response `bytes` changes a boundary, and the status it
/// reports.
///
/// A response at or above the ceiling is refused and nothing changes.
/// Otherwise the response that was stored before is released first. An
/// empty response leaves the slot empty. Any other is written to the
/// lowest free region of its size, and its length is the status; where no
/// free region is large enough, the slot is left empty and the status is
/// negative. The input buffers stay as they are.
pub open spec fn stored(pre: Boundary, bytes: Seq<u8>, post: Boundary, status: int) -> bool {
    &&& post.capacity() == pre.capacity()
    &&& if bytes.len() >= RESPONSE_CEILING {
        &&& status == FAILURE
        &&& post.live() == pre.live()
        &&& post.response() == pre.response()
        &&& post.memory() == pre.memory()
    } else {
        &&& post.inputs() == pre.inputs()
        &&& if bytes.len() == 0 {
            &&& status == 0
            &&& post.response() is None
            &&& post.memory() == pre.memory()
        } else if !has_room(pre.capacity(), pre.inputs(), bytes.len() as int) {
            &&& status == FAILURE
            &&& post.response() is None
            &&& post.memory() == pre.memory()
        } else {
            &&& status == bytes.len()
            &&& post.response() matches Some(r)
            &&& r.len == bytes.len()
            &&& first_fit(pre.capacity(), pre.inputs(), r.ptr as int, r.len as int)
            &&& post.memory() == written(pre.memory(), r.ptr as int, bytes)
        }
    }
}

/// Storing a response leaves every input buffer, and the bytes in it, as
/// they were; and where the status is not negative, the slot then holds
/// the response.
pub proof fn lemma_stored_keeps_inputs(
    pre: Boundary,
    bytes: Seq<u8>,
    post: Boundary,
    status: int,
    input: Buffer,
)
    requires
        pre.inv(),
        post.inv(),
        stored(pre, bytes, post, status),
        pre.inputs().contains(input),
    ensures
        post.inputs().contains(input),
        post.memory().subrange(input.ptr as int, input.end()) == pre.memory().subrange(
            input.ptr as int,
            input.end(),
        ),
        status >= 0 ==> post.response_bytes() == bytes,
{
    pre.lemma_inv();
    post.lemma_inv();
    if post.response() is Some && post.memory() != pre.memory() {
        let r = post.response()->Some_0;
        lemma_written(pre.memory(), r.ptr as int, bytes, input);
    }
    if status >= 0 {
        assert(post.response_bytes() =~= bytes);
    }
}

/// The response slot has a single owner. After two responses have been
/// stored one after the other, the slot holds the second and nothing else:
/// the regions that are taken are the input buffers as they were and the
/// region of the second response, and the region of the first is either
/// that very region, taken anew, or no longer taken.
pub proof fn lemma_response_slot_single_owner(
    start: Boundary,
    middle: Boundary,
    end: Boundary,
    first: Seq<u8>,
    second: Seq<u8>,
    first_status: int,
    second_status: int,
)
    requires
        start.inv(),
        middle.inv(),
        end.inv(),
        stored(start, first, middle, first_status),
        stored(middle, second, end, second_status),
        first_status >= 0,
        second_status >= 0,
    ensures
        end.inputs() == start.inputs(),
        end.response_bytes() == second,
        end.live() == match end.response() {
            Some(r) => start.inputs().insert(r),
            None => start.inputs(),
        },
        middle.response() matches Some(earlier) ==> end.response() == Some(earlier)
            || !end.live().contains(earlier),
{
    middle.lemma_inv();
    end.lemma_inv();
    match end.response() {
        Some(r) => {
            assert(end.live() =~= end.inputs().insert(r));
            assert(end.response_bytes() =~= second);
        },
        None => {
            assert(end.response_bytes() =~= second);
        },
    }
}

/// Stores the response `bytes` and reports the status.
fn store_bytes(boundary: &mut Boundary, bytes: &[u8]) -> (status: i32)
    requires
        old(boundary).inv(),
    ensures
        final(boundary).inv(),
        stored(*old(boundary), bytes@, *final(boundary), status as int),
{
    let len = bytes.len();
    if len >= RESPONSE_CEILING {
        return FAILURE;
    }
    free_response(boundary);
    if len == 0 {
        return 0;
    }
    let ptr = boundary.allocator.allocate_response(len);
    if ptr == 0 {
        return FAILURE;
    }
    proof {
        boundary.allocator.lemma_live();
        assert(boundary.allocator.live().contains(Buffer { ptr, len }));
    }
    boundary.allocator.fill(ptr, bytes);
    boundary.response = Buffer { ptr, len };
    proof {
        assert(boundary.inputs() =~= old(boundary).inputs());
    }
    len as i32
}

/// Stores the serialized response `json_string` in the response slot.
///
/// The status is the length of the stored response in bytes, or negative
/// where the response could not be stored: see [`stored`].
pub fn store_json_response(boundary: &mut Boundary, json_string: String) -> (status: i32)
    requires
        old(boundary).inv(),
    ensures
        final(boundary).inv(),
        stored(*old(boundary), encode_utf8(json_string@), *final(boundary), status as int),
{
    store_bytes(boundary, json_string.as_str().as_bytes())
}

/// The text that is stored for a decompile response: its JSON, or where it
/// cannot be written, the JSON of an error response that says so, or where
/// that cannot be written either, nothing.
pub open spec fn decompile_wire_text(response: DecompileResponseView) -> Seq<char> {
    match decompile_response_json(response) {
        Ok(json) => json,
        Err(reason) => match decompile_response_json(
            DecompileResponseView::error("unknown"@, "JSON serialization error: "@ + reason),
        ) {
            Ok(json) => json,
            Err(_) => Seq::empty(),
        },
    }
}

/// The text that is stored for an assemble response: its JSON, or where it
/// cannot be written, the JSON of an error response that says so, or where
/// that cannot be written either, nothing.
pub open spec fn assemble_wire_text(response: AssembleResponseView) -> Seq<char> {
    match assemble_response_json(response) {
        Ok(json) => json,
        Err(reason) => match assemble_response_json(
            AssembleResponseView::error("unknown"@, "JSON serialization error: "@ + reason),
        ) {
            Ok(json) => json,
            Err(_) => Seq::empty(),
        },
    }
}

/// Serializes a decompile response and stores it in the response slot.
pub fn store_response(boundary: &mut Boundary, response: DecompileResponse) -> (status: i32)
    requires
        old(boundary).inv(),
    ensures
        final(boundary).inv(),
        stored(
            *old(boundary),
            encode_utf8(decompile_wire_text(response@)),
            *final(boundary),
            status as int,
        ),
{
    let json_string = match decompile_response_to_json(&response) {
        Ok(json) => json,
        Err(reason) => {
            let fallback = DecompileResponse::error(
                String::from_str("unknown"),
                prefixed("JSON serialization error: ", reason.as_str()),
            );
            match decompile_response_to_json(&fallback) {
                Ok(json) => json,
                Err(_) => String::new(),
            }
        },
    };
    store_json_response(boundary, json_string)
}

/// Serializes an assemble response and stores it in the response slot.
pub fn store_assemble_response(boundary: &mut Boundary, response: AssembleResponse) -> (status:
    i32)
    requires
        old(boundary).inv(),
    ensures
        final(boundary).inv(),
        stored(
            *old(boundary),
            encode_utf8(assemble_wire_text(response@)),
            *final(boundary),
            status as int,
        ),
{
    let json_string = match assemble_response_to_json(&response) {
        Ok(json) => json,
        Err(reason) => {
            let fallback = AssembleResponse::error(
                String::from_str("unknown"),
                prefixed("JSON serialization error: ", reason.as_str()),
            );
            match assemble_response_to_json(&fallback) {
                Ok(json) => json,
                Err(_) => String::new(),
            }
        },
    };
    store_json_response(boundary, json_string)
}

} // verus!
