use vstd::prelude::*;

verus! {

/// The canonical gRPC status codes.
#[allow(non_camel_case_types)]
#[derive(Debug, Clone, Copy, PartialEq, Eq, Structural)]
pub enum StatusCode {
    OK,
    Canceled,
    Unknown,
    InvalidArgument,
    DeadlineExceeded,
    NotFound,
    AlreadyExists,
    PermissionDenied,
    ResourceExhausted,
    FailedPrecondition,
    Aborted,
    OutOfRange,
    Unimplemented,
    Internal,
    Unavailable,
    DataLoss,
    Unauthenticated,
}

/// The wire number of a status code.
pub open spec fn status_number(c: StatusCode) -> u32 {
    match c {
        StatusCode::OK => 0,
        StatusCode::Canceled => 1,
        StatusCode::Unknown => 2,
        StatusCode::InvalidArgument => 3,
        StatusCode::DeadlineExceeded => 4,
        StatusCode::NotFound => 5,
        StatusCode::AlreadyExists => 6,
        StatusCode::PermissionDenied => 7,
        StatusCode::ResourceExhausted => 8,
        StatusCode::FailedPrecondition => 9,
        StatusCode::Aborted => 10,
        StatusCode::OutOfRange => 11,
        StatusCode::Unimplemented => 12,
        StatusCode::Internal => 13,
        StatusCode::Unavailable => 14,
        StatusCode::DataLoss => 15,
        StatusCode::Unauthenticated => 16,
    }
}

/// The status code that a wire number stands for; numbers above 16 are `Unknown`.
pub open spec fn status_from_number(n: u32) -> StatusCode {
    if n == 0 {
        StatusCode::OK
    } else if n == 1 {
        StatusCode::Canceled
    } else if n == 2 {
        StatusCode::Unknown
    } else if n == 3 {
        StatusCode::InvalidArgument
    } else if n == 4 {
        StatusCode::DeadlineExceeded
    } else if n == 5 {
        StatusCode::NotFound
    } else if n == 6 {
        StatusCode::AlreadyExists
    } else if n == 7 {
        StatusCode::PermissionDenied
    } else if n == 8 {
        StatusCode::ResourceExhausted
    } else if n == 9 {
        StatusCode::FailedPrecondition
    } else if n == 10 {
        StatusCode::Aborted
    } else if n == 11 {
        StatusCode::OutOfRange
    } else if n == 12 {
        StatusCode::Unimplemented
    } else if n == 13 {
        StatusCode::Internal
    } else if n == 14 {
        StatusCode::Unavailable
    } else if n == 15 {
        StatusCode::DataLoss
    } else if n == 16 {
        StatusCode::Unauthenticated
    } else {
        StatusCode::Unknown
    }
}

/// The upper-case name under which a status code is shown.
pub open spec fn status_name(c: StatusCode) -> Seq<char> {
    match c {
        StatusCode::OK => "OK"@,
        StatusCode::Canceled => "CANCELED"@,
        StatusCode::Unknown => "UNKNOWN"@,
        StatusCode::InvalidArgument => "INVALID_ARGUMENT"@,
        StatusCode::DeadlineExceeded => "DEADLINE_EXCEEDED"@,
        StatusCode::NotFound => "NOT_FOUND"@,
        StatusCode::AlreadyExists => "ALREADY_EXISTS"@,
        StatusCode::PermissionDenied => "PERMISSION_DENIED"@,
        StatusCode::ResourceExhausted => "RESOURCE_EXHAUSTED"@,
        StatusCode::FailedPrecondition => "FAILED_PRECONDITION"@,
        StatusCode::Aborted => "ABORTED"@,
        StatusCode::OutOfRange => "OUT_OF_RANGE"@,
        StatusCode::Unimplemented => "UNIMPLEMENTED"@,
        StatusCode::Internal => "INTERNAL"@,
        StatusCode::Unavailable => "UNAVAILABLE"@,
        StatusCode::DataLoss => "DATA_LOSS"@,
        StatusCode::Unauthenticated => "UNAUTHENTICATED"@,
    }
}

impl StatusCode {
    /// Maps a wire number to its status code; unknown numbers give `Unknown`.
    pub fn from_u32(value: u32) -> (r: StatusCode)
        ensures
            r == status_from_number(value),
    {
        match value {
            0 => StatusCode::OK,
            1 => StatusCode::Canceled,
            2 => StatusCode::Unknown,
            3 => StatusCode::InvalidArgument,
            4 => StatusCode::DeadlineExceeded,
            5 => StatusCode::NotFound,
            6 => StatusCode::AlreadyExists,
            7 => StatusCode::PermissionDenied,
            8 => StatusCode::ResourceExhausted,
            9 => StatusCode::FailedPrecondition,
            10 => StatusCode::Aborted,
            11 => StatusCode::OutOfRange,
            12 => StatusCode::Unimplemented,
            13 => StatusCode::Internal,
            14 => StatusCode::Unavailable,
            15 => StatusCode::DataLoss,
            16 => StatusCode::Unauthenticated,
            _ => StatusCode::Unknown,
        }
    }

    /// The wire number of this status code.
    pub fn as_u32(&self) -> (r: u32)
        ensures
            r == status_number(*self),
    {
        match self {
            StatusCode::OK => 0,
            StatusCode::Canceled => 1,
            StatusCode::Unknown => 2,
            StatusCode::InvalidArgument => 3,
            StatusCode::DeadlineExceeded => 4,
            StatusCode::NotFound => 5,
            StatusCode::AlreadyExists => 6,
            StatusCode::PermissionDenied => 7,
            StatusCode::ResourceExhausted => 8,
            StatusCode::FailedPrecondition => 9,
            StatusCode::Aborted => 10,
            StatusCode::OutOfRange => 11,
            StatusCode::Unimplemented => 12,
            StatusCode::Internal => 13,
            StatusCode::Unavailable => 14,
            StatusCode::DataLoss => 15,
            StatusCode::Unauthenticated => 16,
        }
    }

    /// The upper-case name of this status code, as shown to users.
    pub fn name(&self) -> (r: &'static str)
        ensures
            r@ == status_name(*self),
    {
        match self {
            StatusCode::OK => "OK",
            StatusCode::Canceled => "CANCELED",
            StatusCode::Unknown => "UNKNOWN",
            StatusCode::InvalidArgument => "INVALID_ARGUMENT",
            StatusCode::DeadlineExceeded => "DEADLINE_EXCEEDED",
            StatusCode::NotFound => "NOT_FOUND",
            StatusCode::AlreadyExists => "ALREADY_EXISTS",
            StatusCode::PermissionDenied => "PERMISSION_DENIED",
            StatusCode::ResourceExhausted => "RESOURCE_EXHAUSTED",
            StatusCode::FailedPrecondition => "FAILED_PRECONDITION",
            StatusCode::Aborted => "ABORTED",
            StatusCode::OutOfRange => "OUT_OF_RANGE",
            StatusCode::Unimplemented => "UNIMPLEMENTED",
            StatusCode::Internal => "INTERNAL",
            StatusCode::Unavailable => "UNAVAILABLE",
            StatusCode::DataLoss => "DATA_LOSS",
            StatusCode::Unauthenticated => "UNAUTHENTICATED",
        }
    }

    /// The name of this status code as an owned string.
    pub fn to_string(&self) -> (r: String)
        ensures
            r@ == status_name(*self),
    {
        String::from_str(self.name())
    }
}

/// Every status code survives the trip through its wire number.
pub proof fn lemma_status_number_roundtrip(c: StatusCode)
    ensures
        status_from_number(status_number(c)) == c,
{
}

/// Every number up to 16 survives the trip through its status code; every
/// larger number reads as `Unknown`.
pub proof fn lemma_status_number_range(n: u32)
    ensures
        n <= 16 ==> status_number(status_from_number(n)) == n,
        n > 16 ==> status_from_number(n) == StatusCode::Unknown,
{
}

/// The status codes in the order of their wire numbers, as the gRPC
/// specification lists them: 0 OK, 1 CANCELLED, 2 UNKNOWN, 3 INVALID_ARGUMENT,
/// 4 DEADLINE_EXCEEDED, 5 NOT_FOUND, 6 ALREADY_EXISTS, 7 PERMISSION_DENIED,
/// 8 RESOURCE_EXHAUSTED, 9 FAILED_PRECONDITION, 10 ABORTED, 11 OUT_OF_RANGE,
/// 12 UNIMPLEMENTED, 13 INTERNAL, 14 UNAVAILABLE, 15 DATA_LOSS,
/// 16 UNAUTHENTICATED.
pub open spec fn grpc_code_list() -> Seq<StatusCode> {
    seq![
        StatusCode::OK,
        StatusCode::Canceled,
        StatusCode::Unknown,
        StatusCode::InvalidArgument,
        StatusCode::DeadlineExceeded,
        StatusCode::NotFound,
        StatusCode::AlreadyExists,
        StatusCode::PermissionDenied,
        StatusCode::ResourceExhausted,
        StatusCode::FailedPrecondition,
        StatusCode::Aborted,
        StatusCode::OutOfRange,
        StatusCode::Unimplemented,
        StatusCode::Internal,
        StatusCode::Unavailable,
        StatusCode::DataLoss,
        StatusCode::Unauthenticated,
    ]
}

/// Law: wire number `n` stands for the `n`-th code of the gRPC list, numbers
/// past the list for `UNKNOWN`; the wire number of each code is its place in
/// that list.
pub proof fn lemma_status_wire_numbers()
    ensures
        grpc_code_list().len() == 17,
        forall|n: u32| n < 17 ==> #[trigger] status_from_number(n) == grpc_code_list()[n as int],
        forall|n: u32| n >= 17 ==> #[trigger] status_from_number(n) == StatusCode::Unknown,
        forall|c: StatusCode|
            #[trigger] status_number(c) < 17 && grpc_code_list()[status_number(c) as int] == c,
{
    let l = grpc_code_list();
    assert(l.len() == 17);
    assert forall|n: u32| n < 17 implies #[trigger] status_from_number(n) == l[n as int] by {
        if n == 0 { assert(l[0] == StatusCode::OK); }
        else if n == 1 { assert(l[1] == StatusCode::Canceled); }
        else if n == 2 { assert(l[2] == StatusCode::Unknown); }
        else if n == 3 { assert(l[3] == StatusCode::InvalidArgument); }
        else if n == 4 { assert(l[4] == StatusCode::DeadlineExceeded); }
        else if n == 5 { assert(l[5] == StatusCode::NotFound); }
        else if n == 6 { assert(l[6] == StatusCode::AlreadyExists); }
        else if n == 7 { assert(l[7] == StatusCode::PermissionDenied); }
        else if n == 8 { assert(l[8] == StatusCode::ResourceExhausted); }
        else if n == 9 { assert(l[9] == StatusCode::FailedPrecondition); }
        else if n == 10 { assert(l[10] == StatusCode::Aborted); }
        else if n == 11 { assert(l[11] == StatusCode::OutOfRange); }
        else if n == 12 { assert(l[12] == StatusCode::Unimplemented); }
        else if n == 13 { assert(l[13] == StatusCode::Internal); }
        else if n == 14 { assert(l[14] == StatusCode::Unavailable); }
        else if n == 15 { assert(l[15] == StatusCode::DataLoss); }
        else { assert(l[16] == StatusCode::Unauthenticated); }
    }
    assert forall|c: StatusCode| #[trigger] status_number(c) < 17 && l[status_number(c) as int] == c by {
        match c {
            StatusCode::OK => assert(l[0] == c),
            StatusCode::Canceled => assert(l[1] == c),
            StatusCode::Unknown => assert(l[2] == c),
            StatusCode::InvalidArgument => assert(l[3] == c),
            StatusCode::DeadlineExceeded => assert(l[4] == c),
            StatusCode::NotFound => assert(l[5] == c),
            StatusCode::AlreadyExists => assert(l[6] == c),
            StatusCode::PermissionDenied => assert(l[7] == c),
            StatusCode::ResourceExhausted => assert(l[8] == c),
            StatusCode::FailedPrecondition => assert(l[9] == c),
            StatusCode::Aborted => assert(l[10] == c),
            StatusCode::OutOfRange => assert(l[11] == c),
            StatusCode::Unimplemented => assert(l[12] == c),
            StatusCode::Internal => assert(l[13] == c),
            StatusCode::Unavailable => assert(l[14] == c),
            StatusCode::DataLoss => assert(l[15] == c),
            StatusCode::Unauthenticated => assert(l[16] == c),
        }
    }
}

} // verus!
