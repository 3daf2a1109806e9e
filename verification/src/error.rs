//! Error codes of librdkafka and the errors of the admin client.
use vstd::prelude::*;
use vstd::string::StringExecFns;
use vstd::utf8::encode_utf8;

use crate::text::{decimal_int, find_nul, first_nul, format_i32, has_nul};

verus! {

/// An error code reported by librdkafka (`rd_kafka_resp_err_t`).
#[derive(Clone, Copy, Debug, PartialEq, Eq, Structural)]
pub struct RDKafkaError {
    pub code: i32,
}

/// The code librdkafka reports for success.
pub const RD_KAFKA_RESP_ERR_NO_ERROR: i32 = 0;

/// The code librdkafka reports for an invalid argument.
pub const RD_KAFKA_RESP_ERR_INVALID_ARG: i32 = -186;

impl RDKafkaError {
    /// Whether the code denotes an error, that is anything but "no error".
    pub open spec fn spec_is_error(&self) -> bool {
        self.code != RD_KAFKA_RESP_ERR_NO_ERROR
    }

    /// Whether the code denotes an error, that is anything but "no error".
    #[verifier::when_used_as_spec(spec_is_error)]
    pub fn is_error(&self) -> (b: bool)
        ensures
            b == self.spec_is_error(),
    {
        self.code != RD_KAFKA_RESP_ERR_NO_ERROR
    }
}

/// A string that cannot be handed to C because it holds a zero byte.
#[derive(Clone, Debug, PartialEq, Eq)]
pub struct NulError {
    /// The position of the first zero byte.
    pub position: usize,
    /// The UTF-8 bytes of the string.
    pub bytes: Vec<u8>,
}

/// What a `NulError` says.
pub struct NulErrorView {
    pub position: int,
    pub bytes: Seq<u8>,
}

impl View for NulError {
    type V = NulErrorView;

    open spec fn view(&self) -> NulErrorView {
        NulErrorView { position: self.position as int, bytes: self.bytes@ }
    }
}

/// The reason why `s` cannot be handed to C, if any: its UTF-8 encoding
/// holds a zero byte.
pub open spec fn c_string_error(s: Seq<char>) -> Option<NulErrorView> {
    let b = encode_utf8(s);
    if has_nul(b) {
        Some(NulErrorView { position: first_nul(b), bytes: b })
    } else {
        None
    }
}

/// Checks that `s` can be handed to C as a NUL-terminated string.
pub fn check_c_string(s: &str) -> (r: Result<(), NulError>)
    ensures
        r is Ok <==> c_string_error(s@) is None,
        r matches Err(e) ==> Some(e@) == c_string_error(s@),
{
    match find_nul(s) {
        None => Ok(()),
        Some(p) => {
            let bytes = vstd::slice::slice_to_vec(s.as_bytes());
            Err(NulError { position: p, bytes })
        },
    }
}

/// The errors of the admin client.
#[derive(Clone, Debug, PartialEq, Eq)]
pub enum KafkaError {
    /// An admin operation failed as a whole.
    AdminOp(RDKafkaError),
    /// An admin operation could not be built, or its answer could not be read.
    AdminOpCreation(String),
    /// The answer to an admin operation will never come.
    Canceled,
    /// A string meant for C holds a zero byte.
    Nul(NulError),
}

/// What a `KafkaError` says.
pub enum KafkaErrorView {
    AdminOp(RDKafkaError),
    AdminOpCreation(Seq<char>),
    Canceled,
    Nul(NulErrorView),
}

impl View for KafkaError {
    type V = KafkaErrorView;

    open spec fn view(&self) -> KafkaErrorView {
        match self {
            KafkaError::AdminOp(e) => KafkaErrorView::AdminOp(*e),
            KafkaError::AdminOpCreation(m) => KafkaErrorView::AdminOpCreation(m@),
            KafkaError::Canceled => KafkaErrorView::Canceled,
            KafkaError::Nul(e) => KafkaErrorView::Nul(e@),
        }
    }
}

/// The view of a result whose success value has no content of interest.
pub open spec fn unit_result_view(r: Result<(), KafkaError>) -> Result<(), KafkaErrorView> {
    match r {
        Ok(()) => Ok(()),
        Err(e) => Err(e@),
    }
}

/// The error for a string that cannot be handed to C.
pub open spec fn nul_kafka_error(s: Seq<char>) -> Option<KafkaErrorView> {
    match c_string_error(s) {
        Some(e) => Some(KafkaErrorView::Nul(e)),
        None => None,
    }
}

/// Checks that `s` can be handed to C, with the admin client's error.
pub fn c_compatible(s: &str) -> (r: Result<(), KafkaError>)
    ensures
        r is Ok <==> nul_kafka_error(s@) is None,
        r matches Err(e) ==> Some(e@) == nul_kafka_error(s@),
{
    match check_c_string(s) {
        Ok(()) => Ok(()),
        Err(e) => Err(KafkaError::Nul(e)),
    }
}

/// The buffer in which librdkafka describes what went wrong.
#[derive(Clone, Debug, PartialEq, Eq)]
pub struct ErrBuf {
    /// The length the buffer reports.
    pub len: usize,
    /// The text librdkafka wrote into it.
    pub text: String,
}

/// The size of an error buffer.
pub const MAX_ERR_LEN: usize = 512;

impl ErrBuf {
    /// An empty buffer of the usual size.
    pub fn new() -> (b: ErrBuf)
        ensures
            b.len == MAX_ERR_LEN,
            b.text@ == Seq::<char>::empty(),
    {
        ErrBuf { len: MAX_ERR_LEN, text: String::new() }
    }

    /// The length the buffer reports.
    pub fn len(&self) -> (n: usize)
        ensures
            n == self.len,
    {
        self.len
    }
}

/// The message for an invalid argument, given the error buffer.
pub open spec fn invalid_arg_message(err_buf: ErrBuf) -> Seq<char> {
    if err_buf.len == 0 {
        "invalid argument"@
    } else {
        err_buf.text@
    }
}

/// What `check_rdkafka_invalid_arg` answers for the code `res`, the error
/// buffer `err_buf` and the text `res_text` that librdkafka gives for `res`.
pub open spec fn invalid_arg_check(res: RDKafkaError, err_buf: ErrBuf, res_text: Seq<char>) -> Result<
    (),
    KafkaErrorView,
> {
    if res.code == RD_KAFKA_RESP_ERR_NO_ERROR {
        Ok(())
    } else if res.code == RD_KAFKA_RESP_ERR_INVALID_ARG {
        Err(KafkaErrorView::AdminOpCreation(invalid_arg_message(err_buf)))
    } else {
        Err(
            KafkaErrorView::AdminOpCreation(
                "setting admin options returned unexpected error code "@ + res_text,
            ),
        )
    }
}

/// Interprets the answer of a librdkafka call that reports an invalid
/// argument through its error buffer. `res_text` is how librdkafka displays
/// `res`.
pub fn check_rdkafka_invalid_arg(res: RDKafkaError, err_buf: &ErrBuf, res_text: &str) -> (r: Result<
    (),
    KafkaError,
>)
    ensures
        unit_result_view(r) == invalid_arg_check(res, *err_buf, res_text@),
{
    if res.code == RD_KAFKA_RESP_ERR_NO_ERROR {
        Ok(())
    } else if res.code == RD_KAFKA_RESP_ERR_INVALID_ARG {
        let msg = if err_buf.len() == 0 {
            String::from_str("invalid argument")
        } else {
            err_buf.text.clone()
        };
        Err(KafkaError::AdminOpCreation(msg))
    } else {
        let msg = String::from_str("setting admin options returned unexpected error code ");
        Err(KafkaError::AdminOpCreation(msg.concat(res_text)))
    }
}

/// Checks the overall error of an answer from librdkafka.
pub fn check_event_error(err: RDKafkaError) -> (r: Result<(), KafkaError>)
    ensures
        r is Ok <==> !err.spec_is_error(),
        r matches Err(e) ==> e@ == KafkaErrorView::AdminOp(err),
{
    if err.is_error() {
        Err(KafkaError::AdminOp(err))
    } else {
        Ok(())
    }
}

/// The message for an answer of another kind than the request.
pub open spec fn wrong_answer_message(op_name: Seq<char>, event_type: i32) -> Seq<char> {
    op_name + " request received response of incorrect type ("@ + decimal_int(event_type as int)
        + ")"@
}

/// The error for an answer of another kind than the request named `op_name`.
pub fn wrong_answer_error(op_name: &str, event_type: i32) -> (e: KafkaError)
    ensures
        e@ == KafkaErrorView::AdminOpCreation(wrong_answer_message(op_name@, event_type)),
{
    let msg = String::from_str(op_name);
    let msg = msg.concat(" request received response of incorrect type (");
    let typ = format_i32(event_type);
    let msg = msg.concat(typ.as_str());
    let msg = msg.concat(")");
    KafkaError::AdminOpCreation(msg)
}

} // verus!
