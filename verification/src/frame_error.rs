//! The ERROR frame body: an error code, a message, and a payload variant
//! fully determined by the code.

use crate::consistency::{parse_consistency, Consistency};
use crate::cursor::Cursor;
use crate::error::DecodeError;
use crate::types::{
    bytes_eq, lemma_parse_cstring_list_used, parse_cbytes, parse_cint, parse_cstring,
    parse_cstring_list, parse_u8, read_int, CBytes, CString, CStringList,
};
use vstd::prelude::*;

verus! {

/// A server error response: code, human-readable message, and the
/// structured payload the code selects.
#[derive(Debug)]
pub struct CDRSError {
    /// Numeric error code, selecting the payload variant.
    pub error_code: i32,
    /// Human-readable message.
    pub message: CString,
    /// Structured payload, fully determined by `error_code`.
    pub additional_info: AdditionalErrorInfo,
}

/// The payload variant of each error code.
#[derive(Debug)]
pub enum AdditionalErrorInfo {
    Server(SimpleError),
    Protocol(SimpleError),
    Authentication(SimpleError),
    Unavailable(UnavailableError),
    Overloaded(SimpleError),
    IsBootstrapping(SimpleError),
    Truncate(SimpleError),
    WriteTimeout(WriteTimeoutError),
    ReadTimeout(ReadTimeoutError),
    ReadFailure(ReadFailureError),
    FunctionFailure(FunctionFailureError),
    WriteFailure(WriteFailureError),
    Syntax(SimpleError),
    Unauthorized(SimpleError),
    Invalid(SimpleError),
    Config(SimpleError),
    AlreadyExists(AlreadyExistsError),
    Unprepared(UnpreparedError),
}

/// An error payload that carries no fields.
#[derive(Debug)]
pub struct SimpleError {}

impl SimpleError {
    /// Reads an empty payload: consumes nothing, never fails.
    pub fn from_cursor(_cursor: &mut Cursor) -> (r: SimpleError)
        ensures
            *final(_cursor) == *old(_cursor),
    {
        SimpleError {  }
    }
}

/// Not enough replicas were available to satisfy the consistency level.
#[derive(Debug)]
pub struct UnavailableError {
    /// Consistency level of the query.
    pub cl: Consistency,
    /// Number of nodes that should have been available.
    pub required: i32,
    /// Number of replicas known to be alive.
    pub alive: i32,
}

/// Mathematical value of an [`UnavailableError`].
pub ghost struct UnavailableErrorV {
    pub cl: Consistency,
    pub required: int,
    pub alive: int,
}

impl View for UnavailableError {
    type V = UnavailableErrorV;

    open spec fn view(&self) -> UnavailableErrorV {
        UnavailableErrorV { cl: self.cl, required: self.required as int, alive: self.alive as int }
    }
}

/// An unavailable payload at the head of `s`: consistency, then the
/// required count, then the alive count, in that order.
pub open spec fn parse_unavailable(s: Seq<u8>) -> Result<(UnavailableErrorV, int), DecodeError> {
    match parse_consistency(s) {
        Ok((cl, u0)) => match parse_cint(s.skip(u0)) {
            Ok((required, u1)) => match parse_cint(s.skip(u0 + u1)) {
                Ok((alive, u2)) => Ok(
                    (UnavailableErrorV { cl, required, alive }, u0 + u1 + u2),
                ),
                Err(e) => Err(e),
            },
            Err(e) => Err(e),
        },
        Err(e) => Err(e),
    }
}

impl UnavailableError {
    /// Reads an unavailable payload and advances past it.
    pub fn from_cursor(c: &mut Cursor) -> (r: Result<UnavailableError, DecodeError>)
        requires
            old(c).wf(),
        ensures
            final(c).wf(),
            match parse_unavailable(old(c).remaining()) {
                Ok((v, used)) => r is Ok && r->Ok_0@ == v && final(c).remaining() == old(
                    c,
                ).remaining().skip(used),
                Err(e) => r is Err && r->Err_0 == e,
            },
    {
        let ghost s = c.remaining();
        let cl = match Consistency::from_cursor(c) {
            Ok(v) => v,
            Err(e) => { return Err(e) },
        };
        let ghost u0 = parse_consistency(s)->Ok_0.1;
        let required = match read_int(c) {
            Ok(v) => v,
            Err(e) => { return Err(e) },
        };
        let ghost u1 = parse_cint(s.skip(u0))->Ok_0.1;
        proof {
            assert(s.skip(u0).skip(u1) =~= s.skip(u0 + u1));
        }
        let alive = match read_int(c) {
            Ok(v) => v,
            Err(e) => { return Err(e) },
        };
        let ghost u2 = parse_cint(s.skip(u0 + u1))->Ok_0.1;
        proof {
            assert(s.skip(u0 + u1).skip(u2) =~= s.skip(u0 + u1 + u2));
        }
        Ok(UnavailableError { cl, required, alive })
    }
}

/// A write request timed out.
#[derive(Debug)]
pub struct WriteTimeoutError {
    /// Consistency level of the query.
    pub cl: Consistency,
    /// Number of nodes having acknowledged the request.
    pub received: i32,
    /// Number of replicas whose acknowledgement is required.
    pub blockfor: i32,
    /// The kind of write that timed out.
    pub write_type: WriteType,
}

/// Mathematical value of a [`WriteTimeoutError`].
pub ghost struct WriteTimeoutErrorV {
    pub cl: Consistency,
    pub received: int,
    pub blockfor: int,
    pub write_type: WriteType,
}

impl View for WriteTimeoutError {
    type V = WriteTimeoutErrorV;

    open spec fn view(&self) -> WriteTimeoutErrorV {
        WriteTimeoutErrorV {
            cl: self.cl,
            received: self.received as int,
            blockfor: self.blockfor as int,
            write_type: self.write_type,
        }
    }
}

/// A write-timeout payload: consistency, received count, block-for count,
/// then the write type tag, in that order.
pub open spec fn parse_write_timeout(s: Seq<u8>) -> Result<(WriteTimeoutErrorV, int), DecodeError> {
    match parse_consistency(s) {
        Ok((cl, u0)) => match parse_cint(s.skip(u0)) {
            Ok((received, u1)) => match parse_cint(s.skip(u0 + u1)) {
                Ok((blockfor, u2)) => match parse_write_type(s.skip(u0 + u1 + u2)) {
                    Ok((write_type, u3)) => Ok(
                        (
                            WriteTimeoutErrorV { cl, received, blockfor, write_type },
                            u0 + u1 + u2 + u3,
                        ),
                    ),
                    Err(e) => Err(e),
                },
                Err(e) => Err(e),
            },
            Err(e) => Err(e),
        },
        Err(e) => Err(e),
    }
}

impl WriteTimeoutError {
    /// Reads a write-timeout payload and advances past it.
    pub fn from_cursor(c: &mut Cursor) -> (r: Result<WriteTimeoutError, DecodeError>)
        requires
            old(c).wf(),
        ensures
            final(c).wf(),
            match parse_write_timeout(old(c).remaining()) {
                Ok((v, used)) => r is Ok && r->Ok_0@ == v && final(c).remaining() == old(
                    c,
                ).remaining().skip(used),
                Err(e) => r is Err && r->Err_0 == e,
            },
    {
        let ghost s = c.remaining();
        let cl = match Consistency::from_cursor(c) {
            Ok(v) => v,
            Err(e) => { return Err(e) },
        };
        let ghost u0 = parse_consistency(s)->Ok_0.1;
        let received = match read_int(c) {
            Ok(v) => v,
            Err(e) => { return Err(e) },
        };
        let ghost u1 = parse_cint(s.skip(u0))->Ok_0.1;
        proof {
            assert(s.skip(u0).skip(u1) =~= s.skip(u0 + u1));
        }
        let blockfor = match read_int(c) {
            Ok(v) => v,
            Err(e) => { return Err(e) },
        };
        let ghost u2 = parse_cint(s.skip(u0 + u1))->Ok_0.1;
        proof {
            assert(s.skip(u0 + u1).skip(u2) =~= s.skip(u0 + u1 + u2));
        }
        let write_type = match WriteType::from_cursor(c) {
            Ok(v) => v,
            Err(e) => { return Err(e) },
        };
        let ghost u3 = parse_write_type(s.skip(u0 + u1 + u2))->Ok_0.1;
        proof {
            assert(s.skip(u0 + u1 + u2).skip(u3) =~= s.skip(u0 + u1 + u2 + u3));
        }
        Ok(WriteTimeoutError { cl, received, blockfor, write_type })
    }
}

/// A read request timed out.
#[derive(Debug)]
pub struct ReadTimeoutError {
    /// Consistency level of the query.
    pub cl: Consistency,
    /// Number of nodes having acknowledged the request.
    pub received: i32,
    /// Number of replicas whose acknowledgement is required.
    pub blockfor: i32,
    data_present: u8,
}

/// Mathematical value of a [`ReadTimeoutError`].
pub ghost struct ReadTimeoutErrorV {
    pub cl: Consistency,
    pub received: int,
    pub blockfor: int,
    pub data_present: u8,
}

impl View for ReadTimeoutError {
    type V = ReadTimeoutErrorV;

    closed spec fn view(&self) -> ReadTimeoutErrorV {
        ReadTimeoutErrorV {
            cl: self.cl,
            received: self.received as int,
            blockfor: self.blockfor as int,
            data_present: self.data_present,
        }
    }
}

/// A read-timeout payload: consistency, received count, block-for count,
/// then one raw flag byte.
pub open spec fn parse_read_timeout(s: Seq<u8>) -> Result<(ReadTimeoutErrorV, int), DecodeError> {
    match parse_consistency(s) {
        Ok((cl, u0)) => match parse_cint(s.skip(u0)) {
            Ok((received, u1)) => match parse_cint(s.skip(u0 + u1)) {
                Ok((blockfor, u2)) => match parse_u8(s.skip(u0 + u1 + u2)) {
                    Ok((data_present, u3)) => Ok(
                        (
                            ReadTimeoutErrorV { cl, received, blockfor, data_present },
                            u0 + u1 + u2 + u3,
                        ),
                    ),
                    Err(e) => Err(e),
                },
                Err(e) => Err(e),
            },
            Err(e) => Err(e),
        },
        Err(e) => Err(e),
    }
}

impl ReadTimeoutError {
    /// Whether the replica asked for data has responded: the raw flag
    /// byte is nonzero.
    pub fn replica_has_responded(&self) -> (r: bool)
        ensures
            r == (self@.data_present != 0),
    {
        self.data_present != 0
    }

    /// Reads a read-timeout payload and advances past it.
    pub fn from_cursor(c: &mut Cursor) -> (r: Result<ReadTimeoutError, DecodeError>)
        requires
            old(c).wf(),
        ensures
            final(c).wf(),
            match parse_read_timeout(old(c).remaining()) {
                Ok((v, used)) => r is Ok && r->Ok_0@ == v && final(c).remaining() == old(
                    c,
                ).remaining().skip(used),
                Err(e) => r is Err && r->Err_0 == e,
            },
    {
        let ghost s = c.remaining();
        let cl = match Consistency::from_cursor(c) {
            Ok(v) => v,
            Err(e) => { return Err(e) },
        };
        let ghost u0 = parse_consistency(s)->Ok_0.1;
        let received = match read_int(c) {
            Ok(v) => v,
            Err(e) => { return Err(e) },
        };
        let ghost u1 = parse_cint(s.skip(u0))->Ok_0.1;
        proof {
            assert(s.skip(u0).skip(u1) =~= s.skip(u0 + u1));
        }
        let blockfor = match read_int(c) {
            Ok(v) => v,
            Err(e) => { return Err(e) },
        };
        let ghost u2 = parse_cint(s.skip(u0 + u1))->Ok_0.1;
        proof {
            assert(s.skip(u0 + u1).skip(u2) =~= s.skip(u0 + u1 + u2));
        }
        let data_present = match c.read_u8() {
            Ok(v) => v,
            Err(e) => { return Err(e) },
        };
        proof {
            assert(s.skip(u0 + u1 + u2).skip(1) =~= s.skip(u0 + u1 + u2 + 1));
        }
        Ok(ReadTimeoutError { cl, received, blockfor, data_present })
    }
}

/// A read request failed for a reason other than a timeout.
#[derive(Debug)]
pub struct ReadFailureError {
    /// Consistency level of the query.
    pub cl: Consistency,
    /// Number of nodes having acknowledged the request.
    pub received: i32,
    /// Number of replicas whose acknowledgement is required.
    pub blockfor: i32,
    /// Number of nodes that failed while executing the request.
    pub num_failures: i32,
    data_present: u8,
}

/// Mathematical value of a [`ReadFailureError`].
pub ghost struct ReadFailureErrorV {
    pub cl: Consistency,
    pub received: int,
    pub blockfor: int,
    pub num_failures: int,
    pub data_present: u8,
}

impl View for ReadFailureError {
    type V = ReadFailureErrorV;

    closed spec fn view(&self) -> ReadFailureErrorV {
        ReadFailureErrorV {
            cl: self.cl,
            received: self.received as int,
            blockfor: self.blockfor as int,
            num_failures: self.num_failures as int,
            data_present: self.data_present,
        }
    }
}

/// A read-failure payload: consistency, received count, block-for count,
/// failure count, then one raw flag byte.
pub open spec fn parse_read_failure(s: Seq<u8>) -> Result<(ReadFailureErrorV, int), DecodeError> {
    match parse_consistency(s) {
        Ok((cl, u0)) => match parse_cint(s.skip(u0)) {
            Ok((received, u1)) => match parse_cint(s.skip(u0 + u1)) {
                Ok((blockfor, u2)) => match parse_cint(s.skip(u0 + u1 + u2)) {
                    Ok((num_failures, u3)) => match parse_u8(s.skip(u0 + u1 + u2 + u3)) {
                        Ok((data_present, u4)) => Ok(
                            (
                                ReadFailureErrorV {
                                    cl,
                                    received,
                                    blockfor,
                                    num_failures,
                                    data_present,
                                },
                                u0 + u1 + u2 + u3 + u4,
                            ),
                        ),
                        Err(e) => Err(e),
                    },
                    Err(e) => Err(e),
                },
                Err(e) => Err(e),
            },
            Err(e) => Err(e),
        },
        Err(e) => Err(e),
    }
}

impl ReadFailureError {
    /// Whether the replica asked for data has responded: the raw flag
    /// byte is nonzero.
    pub fn replica_has_responded(&self) -> (r: bool)
        ensures
            r == (self@.data_present != 0),
    {
        self.data_present != 0
    }

    /// Reads a read-failure payload and advances past it.
    pub fn from_cursor(c: &mut Cursor) -> (r: Result<ReadFailureError, DecodeError>)
        requires
            old(c).wf(),
        ensures
            final(c).wf(),
            match parse_read_failure(old(c).remaining()) {
                Ok((v, used)) => r is Ok && r->Ok_0@ == v && final(c).remaining() == old(
                    c,
                ).remaining().skip(used),
                Err(e) => r is Err && r->Err_0 == e,
            },
    {
        let ghost s = c.remaining();
        let cl = match Consistency::from_cursor(c) {
            Ok(v) => v,
            Err(e) => { return Err(e) },
        };
        let ghost u0 = parse_consistency(s)->Ok_0.1;
        let received = match read_int(c) {
            Ok(v) => v,
            Err(e) => { return Err(e) },
        };
        let ghost u1 = parse_cint(s.skip(u0))->Ok_0.1;
        proof {
            assert(s.skip(u0).skip(u1) =~= s.skip(u0 + u1));
        }
        let blockfor = match read_int(c) {
            Ok(v) => v,
            Err(e) => { return Err(e) },
        };
        let ghost u2 = parse_cint(s.skip(u0 + u1))->Ok_0.1;
        proof {
            assert(s.skip(u0 + u1).skip(u2) =~= s.skip(u0 + u1 + u2));
        }
        let num_failures = match read_int(c) {
            Ok(v) => v,
            Err(e) => { return Err(e) },
        };
        let ghost u3 = parse_cint(s.skip(u0 + u1 + u2))->Ok_0.1;
        proof {
            assert(s.skip(u0 + u1 + u2).skip(u3) =~= s.skip(u0 + u1 + u2 + u3));
        }
        let data_present = match c.read_u8() {
            Ok(v) => v,
            Err(e) => { return Err(e) },
        };
        proof {
            assert(s.skip(u0 + u1 + u2 + u3).skip(1) =~= s.skip(u0 + u1 + u2 + u3 + 1));
        }
        Ok(ReadFailureError { cl, received, blockfor, num_failures, data_present })
    }
}

/// A user-defined function failed during execution.
#[derive(Debug)]
pub struct FunctionFailureError {
    /// Keyspace of the failed function.
    pub keyspace: CString,
    /// Name of the failed function.
    pub function: CString,
    /// One string per argument type of the failed function.
    pub arg_types: CStringList,
}

/// Mathematical value of a [`FunctionFailureError`].
pub ghost struct FunctionFailureErrorV {
    pub keyspace: Seq<u8>,
    pub function: Seq<u8>,
    pub arg_types: Seq<Seq<u8>>,
}

impl View for FunctionFailureError {
    type V = FunctionFailureErrorV;

    open spec fn view(&self) -> FunctionFailureErrorV {
        FunctionFailureErrorV {
            keyspace: self.keyspace@,
            function: self.function@,
            arg_types: self.arg_types@,
        }
    }
}

/// A function-failure payload: keyspace, function name, then the list of
/// argument types, whose count prefix bounds the reads exactly.
pub open spec fn parse_function_failure(s: Seq<u8>) -> Result<
    (FunctionFailureErrorV, int),
    DecodeError,
> {
    match parse_cstring(s) {
        Ok((keyspace, u0)) => match parse_cstring(s.skip(u0)) {
            Ok((function, u1)) => match parse_cstring_list(s.skip(u0 + u1)) {
                Ok((arg_types, u2)) => Ok(
                    (FunctionFailureErrorV { keyspace, function, arg_types }, u0 + u1 + u2),
                ),
                Err(e) => Err(e),
            },
            Err(e) => Err(e),
        },
        Err(e) => Err(e),
    }
}

impl FunctionFailureError {
    /// Reads a function-failure payload and advances past it.
    pub fn from_cursor(c: &mut Cursor) -> (r: Result<FunctionFailureError, DecodeError>)
        requires
            old(c).wf(),
        ensures
            final(c).wf(),
            match parse_function_failure(old(c).remaining()) {
                Ok((v, used)) => r is Ok && r->Ok_0@ == v && final(c).remaining() == old(
                    c,
                ).remaining().skip(used),
                Err(e) => r is Err && r->Err_0 == e,
            },
    {
        let ghost s = c.remaining();
        let keyspace = match CString::from_cursor(c) {
            Ok(v) => v,
            Err(e) => { return Err(e) },
        };
        let ghost u0 = parse_cstring(s)->Ok_0.1;
        let function = match CString::from_cursor(c) {
            Ok(v) => v,
            Err(e) => { return Err(e) },
        };
        let ghost u1 = parse_cstring(s.skip(u0))->Ok_0.1;
        proof {
            assert(s.skip(u0).skip(u1) =~= s.skip(u0 + u1));
        }
        let arg_types = match CStringList::from_cursor(c) {
            Ok(v) => v,
            Err(e) => { return Err(e) },
        };
        let ghost u2 = parse_cstring_list(s.skip(u0 + u1))->Ok_0.1;
        proof {
            lemma_parse_cstring_list_used(s.skip(u0 + u1));
            assert(s.skip(u0 + u1).skip(u2) =~= s.skip(u0 + u1 + u2));
        }
        Ok(FunctionFailureError { keyspace, function, arg_types })
    }
}

/// A write request failed for a reason other than a timeout.
#[derive(Debug)]
pub struct WriteFailureError {
    /// Consistency level of the query.
    pub cl: Consistency,
    /// Number of nodes having acknowledged the request.
    pub received: i32,
    /// Number of replicas whose acknowledgement is required.
    pub blockfor: i32,
    /// Number of nodes that failed while executing the request.
    pub num_failures: i32,
    /// The kind of write that failed.
    pub write_type: WriteType,
}

/// Mathematical value of a [`WriteFailureError`].
pub ghost struct WriteFailureErrorV {
    pub cl: Consistency,
    pub received: int,
    pub blockfor: int,
    pub num_failures: int,
    pub write_type: WriteType,
}

impl View for WriteFailureError {
    type V = WriteFailureErrorV;

    open spec fn view(&self) -> WriteFailureErrorV {
        WriteFailureErrorV {
            cl: self.cl,
            received: self.received as int,
            blockfor: self.blockfor as int,
            num_failures: self.num_failures as int,
            write_type: self.write_type,
        }
    }
}

/// A write-failure payload: consistency, received count, block-for count,
/// failure count, then the write type tag.
pub open spec fn parse_write_failure(s: Seq<u8>) -> Result<(WriteFailureErrorV, int), DecodeError> {
    match parse_consistency(s) {
        Ok((cl, u0)) => match parse_cint(s.skip(u0)) {
            Ok((received, u1)) => match parse_cint(s.skip(u0 + u1)) {
                Ok((blockfor, u2)) => match parse_cint(s.skip(u0 + u1 + u2)) {
                    Ok((num_failures, u3)) => match parse_write_type(s.skip(u0 + u1 + u2 + u3)) {
                        Ok((write_type, u4)) => Ok(
                            (
                                WriteFailureErrorV {
                                    cl,
                                    received,
                                    blockfor,
                                    num_failures,
                                    write_type,
                                },
                                u0 + u1 + u2 + u3 + u4,
                            ),
                        ),
                        Err(e) => Err(e),
                    },
                    Err(e) => Err(e),
                },
                Err(e) => Err(e),
            },
            Err(e) => Err(e),
        },
        Err(e) => Err(e),
    }
}

impl WriteFailureError {
    /// Reads a write-failure payload and advances past it.
    pub fn from_cursor(c: &mut Cursor) -> (r: Result<WriteFailureError, DecodeError>)
        requires
            old(c).wf(),
        ensures
            final(c).wf(),
            match parse_write_failure(old(c).remaining()) {
                Ok((v, used)) => r is Ok && r->Ok_0@ == v && final(c).remaining() == old(
                    c,
                ).remaining().skip(used),
                Err(e) => r is Err && r->Err_0 == e,
            },
    {
        let ghost s = c.remaining();
        let cl = match Consistency::from_cursor(c) {
            Ok(v) => v,
            Err(e) => { return Err(e) },
        };
        let ghost u0 = parse_consistency(s)->Ok_0.1;
        let received = match read_int(c) {
            Ok(v) => v,
            Err(e) => { return Err(e) },
        };
        let ghost u1 = parse_cint(s.skip(u0))->Ok_0.1;
        proof {
            assert(s.skip(u0).skip(u1) =~= s.skip(u0 + u1));
        }
        let blockfor = match read_int(c) {
            Ok(v) => v,
            Err(e) => { return Err(e) },
        };
        let ghost u2 = parse_cint(s.skip(u0 + u1))->Ok_0.1;
        proof {
            assert(s.skip(u0 + u1).skip(u2) =~= s.skip(u0 + u1 + u2));
        }
        let num_failures = match read_int(c) {
            Ok(v) => v,
            Err(e) => { return Err(e) },
        };
        let ghost u3 = parse_cint(s.skip(u0 + u1 + u2))->Ok_0.1;
        proof {
            assert(s.skip(u0 + u1 + u2).skip(u3) =~= s.skip(u0 + u1 + u2 + u3));
        }
        let write_type = match WriteType::from_cursor(c) {
            Ok(v) => v,
            Err(e) => { return Err(e) },
        };
        let ghost u4 = parse_write_type(s.skip(u0 + u1 + u2 + u3))->Ok_0.1;
        proof {
            assert(s.skip(u0 + u1 + u2 + u3).skip(u4) =~= s.skip(u0 + u1 + u2 + u3 + u4));
        }
        Ok(WriteFailureError { cl, received, blockfor, num_failures, write_type })
    }
}

/// The kind of write behind a write-timeout or write-failure report.
#[derive(Clone, Copy, Debug, PartialEq, Eq, Structural)]
pub enum WriteType {
    /// A non-batched, non-counter write.
    Simple,
    /// A logged batch write: the batch log itself was written.
    Batch,
    /// An unlogged batch: no batch log write was attempted.
    UnloggedBatch,
    /// A counter write, batched or not.
    Counter,
    /// A failure during the batch log write of a logged batch.
    BatchLog,
}

/// The tag bytes "SIMPLE".
pub open spec fn simple_tag() -> Seq<u8> {
    seq![83u8, 73u8, 77u8, 80u8, 76u8, 69u8]
}

/// The tag bytes "BATCH".
pub open spec fn batch_tag() -> Seq<u8> {
    seq![66u8, 65u8, 84u8, 67u8, 72u8]
}

/// The tag bytes "UNLOGGED_BATCH".
pub open spec fn unlogged_batch_tag() -> Seq<u8> {
    seq![85u8, 78u8, 76u8, 79u8, 71u8, 71u8, 69u8, 68u8, 95u8, 66u8, 65u8, 84u8, 67u8, 72u8]
}

/// The tag bytes "COUNTER".
pub open spec fn counter_tag() -> Seq<u8> {
    seq![67u8, 79u8, 85u8, 78u8, 84u8, 69u8, 82u8]
}

/// The tag bytes "BATCH_LOG".
pub open spec fn batch_log_tag() -> Seq<u8> {
    seq![66u8, 65u8, 84u8, 67u8, 72u8, 95u8, 76u8, 79u8, 71u8]
}

/// The write type a tag string stands for, if any: exactly the five
/// fixed tags are recognized.
pub open spec fn write_type_of(tag: Seq<u8>) -> Option<WriteType> {
    if tag == simple_tag() {
        Some(WriteType::Simple)
    } else if tag == batch_tag() {
        Some(WriteType::Batch)
    } else if tag == unlogged_batch_tag() {
        Some(WriteType::UnloggedBatch)
    } else if tag == counter_tag() {
        Some(WriteType::Counter)
    } else if tag == batch_log_tag() {
        Some(WriteType::BatchLog)
    } else {
        None
    }
}

/// A write type at the head of `s`: a string field holding one of the
/// five tags, any other tag being a failure rather than a default.
pub open spec fn parse_write_type(s: Seq<u8>) -> Result<(WriteType, int), DecodeError> {
    match parse_cstring(s) {
        Ok((tag, used)) => match write_type_of(tag) {
            Some(wt) => Ok((wt, used)),
            None => Err(DecodeError::UnknownDiscriminant),
        },
        Err(e) => Err(e),
    }
}

impl WriteType {
    /// Reads a write type tag and advances past it.
    pub fn from_cursor(c: &mut Cursor) -> (r: Result<WriteType, DecodeError>)
        requires
            old(c).wf(),
        ensures
            final(c).wf(),
            match parse_write_type(old(c).remaining()) {
                Ok((wt, used)) => r is Ok && r->Ok_0 == wt && final(c).remaining() == old(
                    c,
                ).remaining().skip(used),
                Err(e) => r is Err && r->Err_0 == e,
            },
    {
        let cs = match CString::from_cursor(c) {
            Ok(v) => v,
            Err(e) => { return Err(e) },
        };
        let tag = cs.as_bytes();
        let simple: Vec<u8> = vec![83u8, 73u8, 77u8, 80u8, 76u8, 69u8];
        proof {
            assert(simple@ =~= simple_tag());
        }
        if bytes_eq(tag, simple.as_slice()) {
            return Ok(WriteType::Simple);
        }
        let batch: Vec<u8> = vec![66u8, 65u8, 84u8, 67u8, 72u8];
        proof {
            assert(batch@ =~= batch_tag());
        }
        if bytes_eq(tag, batch.as_slice()) {
            return Ok(WriteType::Batch);
        }
        let unlogged: Vec<u8> = vec![
            85u8,
            78u8,
            76u8,
            79u8,
            71u8,
            71u8,
            69u8,
            68u8,
            95u8,
            66u8,
            65u8,
            84u8,
            67u8,
            72u8,
        ];
        proof {
            assert(unlogged@ =~= unlogged_batch_tag());
        }
        if bytes_eq(tag, unlogged.as_slice()) {
            return Ok(WriteType::UnloggedBatch);
        }
        let counter: Vec<u8> = vec![67u8, 79u8, 85u8, 78u8, 84u8, 69u8, 82u8];
        proof {
            assert(counter@ =~= counter_tag());
        }
        if bytes_eq(tag, counter.as_slice()) {
            return Ok(WriteType::Counter);
        }
        let batch_log: Vec<u8> = vec![66u8, 65u8, 84u8, 67u8, 72u8, 95u8, 76u8, 79u8, 71u8];
        proof {
            assert(batch_log@ =~= batch_log_tag());
        }
        if bytes_eq(tag, batch_log.as_slice()) {
            return Ok(WriteType::BatchLog);
        }
        Err(DecodeError::UnknownDiscriminant)
    }
}

/// A create statement hit a keyspace or table that already exists.
#[derive(Debug)]
pub struct AlreadyExistsError {
    /// The keyspace that already exists, or the keyspace of the table
    /// that does.
    pub ks: CString,
    /// The table that already exists, empty when the conflict is the
    /// keyspace itself.
    pub table: CString,
}

/// Mathematical value of an [`AlreadyExistsError`].
pub ghost struct AlreadyExistsErrorV {
    pub ks: Seq<u8>,
    pub table: Seq<u8>,
}

impl View for AlreadyExistsError {
    type V = AlreadyExistsErrorV;

    open spec fn view(&self) -> AlreadyExistsErrorV {
        AlreadyExistsErrorV { ks: self.ks@, table: self.table@ }
    }
}

/// An already-exists payload: keyspace, then table, in that order.
pub open spec fn parse_already_exists(s: Seq<u8>) -> Result<(AlreadyExistsErrorV, int), DecodeError> {
    match parse_cstring(s) {
        Ok((ks, u0)) => match parse_cstring(s.skip(u0)) {
            Ok((table, u1)) => Ok((AlreadyExistsErrorV { ks, table }, u0 + u1)),
            Err(e) => Err(e),
        },
        Err(e) => Err(e),
    }
}

impl AlreadyExistsError {
    /// Reads an already-exists payload and advances past it.
    pub fn from_cursor(c: &mut Cursor) -> (r: Result<AlreadyExistsError, DecodeError>)
        requires
            old(c).wf(),
        ensures
            final(c).wf(),
            match parse_already_exists(old(c).remaining()) {
                Ok((v, used)) => r is Ok && r->Ok_0@ == v && final(c).remaining() == old(
                    c,
                ).remaining().skip(used),
                Err(e) => r is Err && r->Err_0 == e,
            },
    {
        let ghost s = c.remaining();
        let ks = match CString::from_cursor(c) {
            Ok(v) => v,
            Err(e) => { return Err(e) },
        };
        let ghost u0 = parse_cstring(s)->Ok_0.1;
        let table = match CString::from_cursor(c) {
            Ok(v) => v,
            Err(e) => { return Err(e) },
        };
        let ghost u1 = parse_cstring(s.skip(u0))->Ok_0.1;
        proof {
            assert(s.skip(u0).skip(u1) =~= s.skip(u0 + u1));
        }
        Ok(AlreadyExistsError { ks, table })
    }
}

/// A prepared statement was executed under an identifier this host does
/// not know.
#[derive(Debug)]
pub struct UnpreparedError {
    /// The unknown prepared statement identifier; it may be empty, and
    /// it may be the null marker.
    pub id: CBytes,
}

/// Mathematical value of an [`UnpreparedError`].
pub ghost struct UnpreparedErrorV {
    pub id: Option<Seq<u8>>,
}

impl View for UnpreparedError {
    type V = UnpreparedErrorV;

    open spec fn view(&self) -> UnpreparedErrorV {
        UnpreparedErrorV { id: self.id@ }
    }
}

/// An unprepared payload: one bytes field holding the statement
/// identifier.
pub open spec fn parse_unprepared(s: Seq<u8>) -> Result<(UnpreparedErrorV, int), DecodeError> {
    match parse_cbytes(s) {
        Ok((id, u0)) => Ok((UnpreparedErrorV { id }, u0)),
        Err(e) => Err(e),
    }
}

impl UnpreparedError {
    /// Reads an unprepared payload and advances past it.
    pub fn from_cursor(c: &mut Cursor) -> (r: Result<UnpreparedError, DecodeError>)
        requires
            old(c).wf(),
        ensures
            final(c).wf(),
            match parse_unprepared(old(c).remaining()) {
                Ok((v, used)) => r is Ok && r->Ok_0@ == v && final(c).remaining() == old(
                    c,
                ).remaining().skip(used),
                Err(e) => r is Err && r->Err_0 == e,
            },
    {
        let id = match CBytes::from_cursor(c) {
            Ok(v) => v,
            Err(e) => { return Err(e) },
        };
        Ok(UnpreparedError { id })
    }
}

/// Mathematical value of an [`AdditionalErrorInfo`].
pub ghost enum AdditionalErrorInfoV {
    Server,
    Protocol,
    Authentication,
    Unavailable(UnavailableErrorV),
    Overloaded,
    IsBootstrapping,
    Truncate,
    WriteTimeout(WriteTimeoutErrorV),
    ReadTimeout(ReadTimeoutErrorV),
    ReadFailure(ReadFailureErrorV),
    FunctionFailure(FunctionFailureErrorV),
    WriteFailure(WriteFailureErrorV),
    Syntax,
    Unauthorized,
    Invalid,
    Config,
    AlreadyExists(AlreadyExistsErrorV),
    Unprepared(UnpreparedErrorV),
}

impl View for AdditionalErrorInfo {
    type V = AdditionalErrorInfoV;

    open spec fn view(&self) -> AdditionalErrorInfoV {
        match self {
            AdditionalErrorInfo::Server(_) => AdditionalErrorInfoV::Server,
            AdditionalErrorInfo::Protocol(_) => AdditionalErrorInfoV::Protocol,
            AdditionalErrorInfo::Authentication(_) => AdditionalErrorInfoV::Authentication,
            AdditionalErrorInfo::Unavailable(v) => AdditionalErrorInfoV::Unavailable(v@),
            AdditionalErrorInfo::Overloaded(_) => AdditionalErrorInfoV::Overloaded,
            AdditionalErrorInfo::IsBootstrapping(_) => AdditionalErrorInfoV::IsBootstrapping,
            AdditionalErrorInfo::Truncate(_) => AdditionalErrorInfoV::Truncate,
            AdditionalErrorInfo::WriteTimeout(v) => AdditionalErrorInfoV::WriteTimeout(v@),
            AdditionalErrorInfo::ReadTimeout(v) => AdditionalErrorInfoV::ReadTimeout(v@),
            AdditionalErrorInfo::ReadFailure(v) => AdditionalErrorInfoV::ReadFailure(v@),
            AdditionalErrorInfo::FunctionFailure(v) => AdditionalErrorInfoV::FunctionFailure(v@),
            AdditionalErrorInfo::WriteFailure(v) => AdditionalErrorInfoV::WriteFailure(v@),
            AdditionalErrorInfo::Syntax(_) => AdditionalErrorInfoV::Syntax,
            AdditionalErrorInfo::Unauthorized(_) => AdditionalErrorInfoV::Unauthorized,
            AdditionalErrorInfo::Invalid(_) => AdditionalErrorInfoV::Invalid,
            AdditionalErrorInfo::Config(_) => AdditionalErrorInfoV::Config,
            AdditionalErrorInfo::AlreadyExists(v) => AdditionalErrorInfoV::AlreadyExists(v@),
            AdditionalErrorInfo::Unprepared(v) => AdditionalErrorInfoV::Unprepared(v@),
        }
    }
}

/// The payload selected by `code` at the head of `s`: one decode path
/// per known code, any other code being a failure rather than a crash.
pub open spec fn parse_additional_info(code: int, s: Seq<u8>) -> Result<
    (AdditionalErrorInfoV, int),
    DecodeError,
> {
    if code == 0x0000 {
        Ok((AdditionalErrorInfoV::Server, 0))
    } else if code == 0x000A {
        Ok((AdditionalErrorInfoV::Protocol, 0))
    } else if code == 0x0100 {
        Ok((AdditionalErrorInfoV::Authentication, 0))
    } else if code == 0x1000 {
        match parse_unavailable(s) {
            Ok((v, used)) => Ok((AdditionalErrorInfoV::Unavailable(v), used)),
            Err(e) => Err(e),
        }
    } else if code == 0x1001 {
        Ok((AdditionalErrorInfoV::Overloaded, 0))
    } else if code == 0x1002 {
        Ok((AdditionalErrorInfoV::IsBootstrapping, 0))
    } else if code == 0x1003 {
        Ok((AdditionalErrorInfoV::Truncate, 0))
    } else if code == 0x1100 {
        match parse_write_timeout(s) {
            Ok((v, used)) => Ok((AdditionalErrorInfoV::WriteTimeout(v), used)),
            Err(e) => Err(e),
        }
    } else if code == 0x1200 {
        match parse_read_timeout(s) {
            Ok((v, used)) => Ok((AdditionalErrorInfoV::ReadTimeout(v), used)),
            Err(e) => Err(e),
        }
    } else if code == 0x1300 {
        match parse_read_failure(s) {
            Ok((v, used)) => Ok((AdditionalErrorInfoV::ReadFailure(v), used)),
            Err(e) => Err(e),
        }
    } else if code == 0x1400 {
        match parse_function_failure(s) {
            Ok((v, used)) => Ok((AdditionalErrorInfoV::FunctionFailure(v), used)),
            Err(e) => Err(e),
        }
    } else if code == 0x1500 {
        match parse_write_failure(s) {
            Ok((v, used)) => Ok((AdditionalErrorInfoV::WriteFailure(v), used)),
            Err(e) => Err(e),
        }
    } else if code == 0x2000 {
        Ok((AdditionalErrorInfoV::Syntax, 0))
    } else if code == 0x2100 {
        Ok((AdditionalErrorInfoV::Unauthorized, 0))
    } else if code == 0x2200 {
        Ok((AdditionalErrorInfoV::Invalid, 0))
    } else if code == 0x2300 {
        Ok((AdditionalErrorInfoV::Config, 0))
    } else if code == 0x2400 {
        match parse_already_exists(s) {
            Ok((v, used)) => Ok((AdditionalErrorInfoV::AlreadyExists(v), used)),
            Err(e) => Err(e),
        }
    } else if code == 0x2500 {
        match parse_unprepared(s) {
            Ok((v, used)) => Ok((AdditionalErrorInfoV::Unprepared(v), used)),
            Err(e) => Err(e),
        }
    } else {
        Err(DecodeError::UnknownDiscriminant)
    }
}

impl AdditionalErrorInfo {
    /// Reads the payload that `error_code` selects and advances past it.
    pub fn from_cursor_with_code(c: &mut Cursor, error_code: i32) -> (r: Result<
        AdditionalErrorInfo,
        DecodeError,
    >)
        requires
            old(c).wf(),
        ensures
            final(c).wf(),
            match parse_additional_info(error_code as int, old(c).remaining()) {
                Ok((v, used)) => r is Ok && r->Ok_0@ == v && final(c).remaining() == old(
                    c,
                ).remaining().skip(used),
                Err(e) => r is Err && r->Err_0 == e,
            },
    {
        proof {
            assert(old(c).remaining().skip(0) =~= old(c).remaining());
        }
        match error_code {
            0x0000 => Ok(AdditionalErrorInfo::Server(SimpleError::from_cursor(c))),
            0x000A => Ok(AdditionalErrorInfo::Protocol(SimpleError::from_cursor(c))),
            0x0100 => Ok(AdditionalErrorInfo::Authentication(SimpleError::from_cursor(c))),
            0x1000 => match UnavailableError::from_cursor(c) {
                Ok(v) => Ok(AdditionalErrorInfo::Unavailable(v)),
                Err(e) => Err(e),
            },
            0x1001 => Ok(AdditionalErrorInfo::Overloaded(SimpleError::from_cursor(c))),
            0x1002 => Ok(AdditionalErrorInfo::IsBootstrapping(SimpleError::from_cursor(c))),
            0x1003 => Ok(AdditionalErrorInfo::Truncate(SimpleError::from_cursor(c))),
            0x1100 => match WriteTimeoutError::from_cursor(c) {
                Ok(v) => Ok(AdditionalErrorInfo::WriteTimeout(v)),
                Err(e) => Err(e),
            },
            0x1200 => match ReadTimeoutError::from_cursor(c) {
                Ok(v) => Ok(AdditionalErrorInfo::ReadTimeout(v)),
                Err(e) => Err(e),
            },
            0x1300 => match ReadFailureError::from_cursor(c) {
                Ok(v) => Ok(AdditionalErrorInfo::ReadFailure(v)),
                Err(e) => Err(e),
            },
            0x1400 => match FunctionFailureError::from_cursor(c) {
                Ok(v) => Ok(AdditionalErrorInfo::FunctionFailure(v)),
                Err(e) => Err(e),
            },
            0x1500 => match WriteFailureError::from_cursor(c) {
                Ok(v) => Ok(AdditionalErrorInfo::WriteFailure(v)),
                Err(e) => Err(e),
            },
            0x2000 => Ok(AdditionalErrorInfo::Syntax(SimpleError::from_cursor(c))),
            0x2100 => Ok(AdditionalErrorInfo::Unauthorized(SimpleError::from_cursor(c))),
            0x2200 => Ok(AdditionalErrorInfo::Invalid(SimpleError::from_cursor(c))),
            0x2300 => Ok(AdditionalErrorInfo::Config(SimpleError::from_cursor(c))),
            0x2400 => match AlreadyExistsError::from_cursor(c) {
                Ok(v) => Ok(AdditionalErrorInfo::AlreadyExists(v)),
                Err(e) => Err(e),
            },
            0x2500 => match UnpreparedError::from_cursor(c) {
                Ok(v) => Ok(AdditionalErrorInfo::Unprepared(v)),
                Err(e) => Err(e),
            },
            _ => Err(DecodeError::UnknownDiscriminant),
        }
    }
}

pub proof fn lemma_parse_write_type_used(s: Seq<u8>)
    requires
        parse_write_type(s) is Ok,
    ensures
        0 <= parse_write_type(s)->Ok_0.1 <= s.len(),
{
}

pub proof fn lemma_parse_unavailable_used(s: Seq<u8>)
    requires
        parse_unavailable(s) is Ok,
    ensures
        0 <= parse_unavailable(s)->Ok_0.1 <= s.len(),
{
}

pub proof fn lemma_parse_write_timeout_used(s: Seq<u8>)
    requires
        parse_write_timeout(s) is Ok,
    ensures
        0 <= parse_write_timeout(s)->Ok_0.1 <= s.len(),
{
    let u0 = parse_consistency(s)->Ok_0.1;
    let u1 = parse_cint(s.skip(u0))->Ok_0.1;
    let u2 = parse_cint(s.skip(u0 + u1))->Ok_0.1;
    lemma_parse_write_type_used(s.skip(u0 + u1 + u2));
}

pub proof fn lemma_parse_read_timeout_used(s: Seq<u8>)
    requires
        parse_read_timeout(s) is Ok,
    ensures
        0 <= parse_read_timeout(s)->Ok_0.1 <= s.len(),
{
}

pub proof fn lemma_parse_read_failure_used(s: Seq<u8>)
    requires
        parse_read_failure(s) is Ok,
    ensures
        0 <= parse_read_failure(s)->Ok_0.1 <= s.len(),
{
}

pub proof fn lemma_parse_function_failure_used(s: Seq<u8>)
    requires
        parse_function_failure(s) is Ok,
    ensures
        0 <= parse_function_failure(s)->Ok_0.1 <= s.len(),
{
    let u0 = parse_cstring(s)->Ok_0.1;
    let u1 = parse_cstring(s.skip(u0))->Ok_0.1;
    lemma_parse_cstring_list_used(s.skip(u0 + u1));
}

pub proof fn lemma_parse_write_failure_used(s: Seq<u8>)
    requires
        parse_write_failure(s) is Ok,
    ensures
        0 <= parse_write_failure(s)->Ok_0.1 <= s.len(),
{
    let u0 = parse_consistency(s)->Ok_0.1;
    let u1 = parse_cint(s.skip(u0))->Ok_0.1;
    let u2 = parse_cint(s.skip(u0 + u1))->Ok_0.1;
    let u3 = parse_cint(s.skip(u0 + u1 + u2))->Ok_0.1;
    lemma_parse_write_type_used(s.skip(u0 + u1 + u2 + u3));
}

pub proof fn lemma_parse_already_exists_used(s: Seq<u8>)
    requires
        parse_already_exists(s) is Ok,
    ensures
        0 <= parse_already_exists(s)->Ok_0.1 <= s.len(),
{
}

pub proof fn lemma_parse_unprepared_used(s: Seq<u8>)
    requires
        parse_unprepared(s) is Ok,
    ensures
        0 <= parse_unprepared(s)->Ok_0.1 <= s.len(),
{
}

pub proof fn lemma_parse_additional_info_used(code: int, s: Seq<u8>)
    requires
        parse_additional_info(code, s) is Ok,
    ensures
        0 <= parse_additional_info(code, s)->Ok_0.1 <= s.len(),
{
    if code == 0x1000 {
        lemma_parse_unavailable_used(s);
    } else if code == 0x1100 {
        lemma_parse_write_timeout_used(s);
    } else if code == 0x1200 {
        lemma_parse_read_timeout_used(s);
    } else if code == 0x1300 {
        lemma_parse_read_failure_used(s);
    } else if code == 0x1400 {
        lemma_parse_function_failure_used(s);
    } else if code == 0x1500 {
        lemma_parse_write_failure_used(s);
    } else if code == 0x2400 {
        lemma_parse_already_exists_used(s);
    } else if code == 0x2500 {
        lemma_parse_unprepared_used(s);
    }
}

/// Mathematical value of a [`CDRSError`].
pub ghost struct CDRSErrorV {
    pub error_code: int,
    pub message: Seq<u8>,
    pub additional_info: AdditionalErrorInfoV,
}

impl View for CDRSError {
    type V = CDRSErrorV;

    open spec fn view(&self) -> CDRSErrorV {
        CDRSErrorV {
            error_code: self.error_code as int,
            message: self.message@,
            additional_info: self.additional_info@,
        }
    }
}

/// An ERROR frame body at the head of `s`: the code, the message, then
/// the payload the code selects, with nothing between the fields.
pub open spec fn parse_error_report(s: Seq<u8>) -> Result<(CDRSErrorV, int), DecodeError> {
    match parse_cint(s) {
        Ok((code, u0)) => match parse_cstring(s.skip(u0)) {
            Ok((message, u1)) => match parse_additional_info(code, s.skip(u0 + u1)) {
                Ok((info, u2)) => Ok(
                    (
                        CDRSErrorV { error_code: code, message, additional_info: info },
                        u0 + u1 + u2,
                    ),
                ),
                Err(e) => Err(e),
            },
            Err(e) => Err(e),
        },
        Err(e) => Err(e),
    }
}

impl CDRSError {
    /// Reads a whole ERROR frame body: code, message, then the payload
    /// selected by the code. A caller never sees a partially populated
    /// report: any short or malformed field fails the whole decode.
    pub fn from_cursor(c: &mut Cursor) -> (r: Result<CDRSError, DecodeError>)
        requires
            old(c).wf(),
        ensures
            final(c).wf(),
            match parse_error_report(old(c).remaining()) {
                Ok((v, used)) => r is Ok && r->Ok_0@ == v && final(c).remaining() == old(
                    c,
                ).remaining().skip(used),
                Err(e) => r is Err && r->Err_0 == e,
            },
    {
        let ghost s = c.remaining();
        let error_code = match read_int(c) {
            Ok(v) => v,
            Err(e) => { return Err(e) },
        };
        let ghost u0 = parse_cint(s)->Ok_0.1;
        let message = match CString::from_cursor(c) {
            Ok(v) => v,
            Err(e) => { return Err(e) },
        };
        let ghost u1 = parse_cstring(s.skip(u0))->Ok_0.1;
        proof {
            assert(s.skip(u0).skip(u1) =~= s.skip(u0 + u1));
        }
        let additional_info = match AdditionalErrorInfo::from_cursor_with_code(c, error_code) {
            Ok(v) => v,
            Err(e) => { return Err(e) },
        };
        let ghost u2 = parse_additional_info(error_code as int, s.skip(u0 + u1))->Ok_0.1;
        proof {
            lemma_parse_additional_info_used(error_code as int, s.skip(u0 + u1));
            assert(s.skip(u0 + u1).skip(u2) =~= s.skip(u0 + u1 + u2));
        }
        Ok(CDRSError { error_code, message, additional_info })
    }
}

} // verus!
