//! The messages and services of the greeter example.
use vstd::prelude::*;

use crate::decimal::{signed_decimal_string, signed_decimal_text};
use crate::error::{concat_str, error_text, Error};

verus! {

/// A request to greet someone.
pub struct HelloRequest {
    pub name: String,
}

impl HelloRequest {
    pub fn new(name: &str) -> (r: HelloRequest)
        ensures
            r.name@ == name@,
    {
        HelloRequest { name: String::from_str(name) }
    }
}

/// A greeting.
pub struct HelloReply {
    pub message: String,
}

impl HelloReply {
    pub fn new(message: &str) -> (r: HelloReply)
        ensures
            r.message@ == message@,
    {
        HelloReply { message: String::from_str(message) }
    }
}

/// A request to count from a start value.
pub struct CountRequest {
    pub start: i32,
}

/// One value of a count.
pub struct CountResponse {
    pub value: i32,
}

/// A greeter service as served to gRPC.
#[derive(Debug, Clone)]
pub struct GreeterServer<T> {
    inner: T,
}

impl<T> GreeterServer<T> {
    pub closed spec fn inner_spec(&self) -> T {
        self.inner
    }

    pub fn new(inner: T) -> (r: GreeterServer<T>)
        ensures
            r.inner_spec() == inner,
    {
        GreeterServer { inner }
    }

    /// The service that answers the calls.
    pub fn inner(&self) -> (r: &T)
        ensures
            *r == self.inner_spec(),
    {
        &self.inner
    }
}

/// The text of a greeting with a prefix and the name, ending in `!`.
pub open spec fn greeting(prefix: Seq<char>, name: Seq<char>) -> Seq<char> {
    prefix + name + "!"@
}

fn greet(prefix: &str, name: &str) -> (r: HelloReply)
    ensures
        r.message@ == greeting(prefix@, name@),
{
    let mut m = concat_str(prefix, name);
    m.append("!");
    HelloReply { message: m }
}

/// The service that greets.
#[derive(Debug, Clone)]
pub struct GreeterService {}

impl Default for GreeterService {
    fn default() -> (r: GreeterService)
        ensures
            r == (GreeterService {}),
    {
        GreeterService {}
    }
}

impl GreeterService {
    /// The reply to a greeting request: `Hello, <name>!`.
    pub fn say_hello(&self, request: &HelloRequest) -> (r: HelloReply)
        ensures
            r.message@ == greeting("Hello, "@, request.name@),
    {
        greet("Hello, ", request.name.as_str())
    }

    /// The replies streamed to a greeting request: hello, welcome and goodbye.
    pub fn say_hello_stream(&self, request: &HelloRequest) -> (r: Vec<HelloReply>)
        ensures
            r@.len() == 3,
            r@[0].message@ == greeting("Hello, "@, request.name@),
            r@[1].message@ == greeting("Welcome, "@, request.name@),
            r@[2].message@ == greeting("Goodbye, "@, request.name@),
    {
        let name = request.name.as_str();
        let mut r: Vec<HelloReply> = Vec::new();
        r.push(greet("Hello, ", name));
        r.push(greet("Welcome, ", name));
        r.push(greet("Goodbye, ", name));
        r
    }
}

/// The service that counts a geometric run of doublings.
pub struct ArithmeticProgressionStreamingService {}

impl Default for ArithmeticProgressionStreamingService {
    fn default() -> (r: ArithmeticProgressionStreamingService)
        ensures
            r == (ArithmeticProgressionStreamingService {}),
    {
        ArithmeticProgressionStreamingService {}
    }
}

impl ArithmeticProgressionStreamingService {
    /// Five values from the start value on, each twice the one before. The
    /// count computes one doubling past the last value, so that must fit in 32 bits too.
    pub fn count_arithmetic_progression(&self, request: &CountRequest) -> (r: Vec<CountResponse>)
        requires
            i32::MIN <= 32 * request.start <= i32::MAX,
        ensures
            r@.len() == 5,
            r@[0].value == request.start,
            r@[1].value == 2 * request.start,
            r@[2].value == 4 * request.start,
            r@[3].value == 8 * request.start,
            r@[4].value == 16 * request.start,
    {
        let start = request.start;
        let mut values: Vec<CountResponse> = Vec::new();
        let mut current = start;
        let mut i: usize = 0;
        while i < 5
            invariant
                i <= 5,
                i32::MIN <= 32 * start <= i32::MAX,
                values@.len() == i,
                current as int == start * (if i == 0 { 1int } else if i == 1 { 2int } else if i == 2 {
                    4int
                } else if i == 3 { 8int } else if i == 4 { 16int } else { 32int }),
                forall|j: int| 0 <= j < i ==> (#[trigger] values@[j]).value as int == start * (if j == 0 {
                    1int
                } else if j == 1 { 2int } else if j == 2 { 4int } else if j == 3 { 8int } else {
                    16int
                }),
            decreases 5 - i,
        {
            values.push(CountResponse { value: current });
            current = current * 2;
            i = i + 1;
        }
        values
    }
}

/// The log line shown for a value received from the count stream.
pub fn received_line(value: i32) -> (r: String)
    ensures
        r@ == "Received: "@ + signed_decimal_text(value as int),
{
    concat_str("Received: ", signed_decimal_string(value as i64).as_str())
}

/// The line shown when the count stream fails.
pub fn stream_error_line(e: &Error) -> (r: String)
    ensures
        r@ == "Stream error: "@ + error_text(e@),
{
    concat_str("Stream error: ", e.to_string().as_str())
}

/// What the count page shows while it reads the count stream: its log lines,
/// its error line (empty while there is none), and whether reading stopped.
pub struct CountLog {
    pub logs: Vec<String>,
    pub error: String,
    pub stopped: bool,
}

impl CountLog {
    /// The log before the first item of the stream.
    pub fn start() -> (r: CountLog)
        ensures
            r.logs@.len() == 1,
            r.logs@[0]@ == "Starting..."@,
            r.error@ == Seq::<char>::empty(),
            !r.stopped,
    {
        let mut logs: Vec<String> = Vec::new();
        logs.push(String::from_str("Starting..."));
        CountLog { logs, error: String::new(), stopped: false }
    }

    /// Takes in one item of the count stream: a value adds its log line, an
    /// error sets the error line and stops the reading; once stopped, nothing
    /// changes.
    pub fn step(&mut self, item: Result<i32, Error>)
        ensures
            old(self).stopped ==> *final(self) == *old(self),
            !old(self).stopped ==> match item {
                Ok(v) => {
                    &&& final(self).logs@.len() == old(self).logs@.len() + 1
                    &&& final(self).logs@.take(old(self).logs@.len() as int) == old(self).logs@
                    &&& final(self).logs@.last()@ == "Received: "@ + signed_decimal_text(v as int)
                    &&& final(self).error == old(self).error
                    &&& !final(self).stopped
                },
                Err(e) => {
                    &&& final(self).logs == old(self).logs
                    &&& final(self).error@ == "Stream error: "@ + error_text(e@)
                    &&& final(self).stopped
                },
            },
    {
        if self.stopped {
            return;
        }
        match item {
            Ok(v) => {
                let line = received_line(v);
                self.logs.push(line);
                assert(self.logs@.take(old(self).logs@.len() as int) =~= old(self).logs@);
            },
            Err(e) => {
                self.error = stream_error_line(&e);
                self.stopped = true;
            },
        }
    }
}

} // verus!
