//! The boundary towards the foreign caller: status codes, the handle and the
//! checks that each operation makes before and after the driver is called.

use vstd::prelude::*;
use vstd::utf8::*;

verus! {

/// Status reported by every boundary operation.
#[derive(Clone, Copy, Debug, PartialEq, Eq, Structural)]
pub enum OdbcError {
    Success,
    ConnectionError,
    StringConversionError,
    InvalidHandle,
    NullPointer,
    ExecutionError,
    Panic,
}

impl OdbcError {
    /// The stable small integer that stands for a status across the boundary.
    pub open spec fn code_spec(self) -> int {
        match self {
            OdbcError::Success => 0,
            OdbcError::ConnectionError => 1,
            OdbcError::StringConversionError => 2,
            OdbcError::InvalidHandle => 3,
            OdbcError::NullPointer => 4,
            OdbcError::ExecutionError => 5,
            OdbcError::Panic => 6,
        }
    }

    pub fn code(self) -> (c: i32)
        ensures
            c == self.code_spec(),
    {
        match self {
            OdbcError::Success => 0,
            OdbcError::ConnectionError => 1,
            OdbcError::StringConversionError => 2,
            OdbcError::InvalidHandle => 3,
            OdbcError::NullPointer => 4,
            OdbcError::ExecutionError => 5,
            OdbcError::Panic => 6,
        }
    }
}

/// Two statuses with the same code are the same status.
pub proof fn code_is_injective(a: OdbcError, b: OdbcError)
    requires
        a.code_spec() == b.code_spec(),
    ensures
        a == b,
{
}

/// How a statement's execution ended, as seen from the boundary.
#[derive(Clone, Copy, Debug, PartialEq, Eq, Structural)]
pub enum ExecOutcome {
    /// The executor ran to its end without a driver error.
    Completed,
    /// The driver refused a request.
    Failed,
    /// An internal fault was caught while the statement ran.
    Faulted,
}

/// The one object that crosses the boundary. `M` is the connection manager
/// and `C` the connection; the manager is declared last so that a connection
/// is dropped before the manager it was opened from.
pub struct OdbcConnectionHandle<M, C> {
    connection: Option<C>,
    manager: Option<M>,
}

impl<M, C> OdbcConnectionHandle<M, C> {
    pub closed spec fn manager_spec(&self) -> Option<M> {
        self.manager
    }

    pub closed spec fn connection_spec(&self) -> Option<C> {
        self.connection
    }

    /// The handle as `odbc_create_connection` makes it.
    pub closed spec fn fresh(manager: M) -> Self {
        OdbcConnectionHandle { connection: None, manager: Some(manager) }
    }

    /// The handle with its connection replaced.
    pub closed spec fn holding(self, connection: C) -> Self {
        OdbcConnectionHandle { connection: Some(connection), manager: self.manager }
    }

    /// The handle and the status after the manager answered a connect.
    pub open spec fn connected(self, connection: Option<C>) -> (Self, OdbcError) {
        if connection is None {
            (self, OdbcError::ConnectionError)
        } else if self.manager_spec() is None {
            (self, OdbcError::InvalidHandle)
        } else {
            (self.holding(connection->0), OdbcError::Success)
        }
    }

    /// Manager set, connection unset.
    pub open spec fn is_fresh(&self) -> bool {
        self.manager_spec() is Some && self.connection_spec() is None
    }

    /// Manager and connection both set.
    pub open spec fn is_connected(&self) -> bool {
        self.manager_spec() is Some && self.connection_spec() is Some
    }

    pub fn manager(&self) -> (m: Option<&M>)
        ensures
            m is Some == self.manager_spec() is Some,
            m matches Some(r) ==> self.manager_spec() == Some(*r),
    {
        self.manager.as_ref()
    }

    pub fn connection(&self) -> (c: Option<&C>)
        ensures
            c is Some == self.connection_spec() is Some,
            c matches Some(r) ==> self.connection_spec() == Some(*r),
    {
        self.connection.as_ref()
    }
}

/// What `odbc_connect` answers: the decoded connection string to hand to the
/// manager, or the status to return at once.
pub open spec fn connect_request(
    handle: Option<bool>,
    conn_str: Option<Seq<u8>>,
) -> Result<Seq<char>, OdbcError> {
    if handle is None || conn_str is None {
        Err(OdbcError::NullPointer)
    } else if !valid_utf8(conn_str->0) {
        Err(OdbcError::StringConversionError)
    } else if !handle->0 {
        Err(OdbcError::InvalidHandle)
    } else {
        Ok(decode_utf8(conn_str->0))
    }
}

/// What `odbc_execute` answers: the decoded statement to run on the handle's
/// connection, or the status to return at once.
pub open spec fn execute_request(
    handle: Option<bool>,
    sql: Option<Seq<u8>>,
) -> Result<Seq<char>, OdbcError> {
    if handle is None || sql is None {
        Err(OdbcError::NullPointer)
    } else if !handle->0 {
        Err(OdbcError::InvalidHandle)
    } else if !valid_utf8(sql->0) {
        Err(OdbcError::StringConversionError)
    } else {
        Ok(decode_utf8(sql->0))
    }
}

/// The status of a free: `present` is false for a null pointer.
pub open spec fn freed_status(present: bool) -> OdbcError {
    if present {
        OdbcError::Success
    } else {
        OdbcError::InvalidHandle
    }
}

/// A text unit as the callback gets it: the line and a terminating zero, or
/// nothing for a line that holds a zero itself, which cannot be handed over
/// and is left out.
pub open spec fn text_payload_spec(unit: Seq<u8>) -> Option<Seq<u8>> {
    if exists|i: int| 0 <= i < unit.len() && unit[i] == 0 {
        None
    } else {
        Some(unit.push(0))
    }
}

/// The status that ends `odbc_execute` once the statement has run.
pub open spec fn executed_status(outcome: ExecOutcome) -> OdbcError {
    match outcome {
        ExecOutcome::Completed => OdbcError::Success,
        ExecOutcome::Failed => OdbcError::ExecutionError,
        ExecOutcome::Faulted => OdbcError::Panic,
    }
}

/// `std::str::from_utf8`: the bytes as text when they are valid UTF-8, and
/// nothing otherwise.
#[verifier::external_body]
fn decode_text(bytes: &[u8]) -> (text: Option<String>)
    ensures
        text is Some == valid_utf8(bytes@),
        text matches Some(s) ==> s@ == decode_utf8(bytes@),
{
    std::str::from_utf8(bytes).ok().map(|s| s.to_owned())
}

/// A new handle around the manager, or nothing when the manager could not be
/// made.
pub fn odbc_create_connection<M, C>(manager: Option<M>) -> (handle: Option<
    OdbcConnectionHandle<M, C>,
>)
    ensures
        handle is Some == manager is Some,
        handle matches Some(h) ==> h == OdbcConnectionHandle::<M, C>::fresh(manager->0),
{
    match manager {
        Some(m) => Some(OdbcConnectionHandle { connection: None, manager: Some(m) }),
        None => None,
    }
}

/// Checks the arguments of a connect before the manager is called. `None`
/// stands for a null pointer; the bytes are those before the terminator.
pub fn odbc_connect<M, C>(
    handle: Option<&OdbcConnectionHandle<M, C>>,
    conn_str: Option<&[u8]>,
) -> (request: Result<String, OdbcError>)
    ensures
        match request {
            Ok(text) => connect_request(
                match handle { Some(h) => Some(h.manager_spec() is Some), None => None },
                match conn_str { Some(s) => Some(s@), None => None },
            ) == Ok::<Seq<char>, OdbcError>(text@),
            Err(status) => connect_request(
                match handle { Some(h) => Some(h.manager_spec() is Some), None => None },
                match conn_str { Some(s) => Some(s@), None => None },
            ) == Err::<Seq<char>, OdbcError>(status),
        },
{
    let h = match handle {
        Some(h) => h,
        None => { return Err(OdbcError::NullPointer); },
    };
    let bytes = match conn_str {
        Some(b) => b,
        None => { return Err(OdbcError::NullPointer); },
    };
    let text = match decode_text(bytes) {
        Some(t) => t,
        None => { return Err(OdbcError::StringConversionError); },
    };
    if h.manager.is_none() {
        return Err(OdbcError::InvalidHandle);
    }
    Ok(text)
}

/// Records what the manager answered to a connect: a connection is stored in
/// the handle, a refusal leaves the handle as it was.
pub fn odbc_connected<M, C>(handle: &mut OdbcConnectionHandle<M, C>, connection: Option<C>) -> (status:
    OdbcError)
    ensures
        (*final(handle), status) == old(handle).connected(connection),
{
    match connection {
        None => OdbcError::ConnectionError,
        Some(c) => {
            if handle.manager.is_none() {
                OdbcError::InvalidHandle
            } else {
                handle.connection = Some(c);
                OdbcError::Success
            }
        },
    }
}

/// Checks the arguments of an execute before the statement is run.
pub fn odbc_execute<M, C>(
    handle: Option<&OdbcConnectionHandle<M, C>>,
    sql: Option<&[u8]>,
) -> (request: Result<String, OdbcError>)
    ensures
        match request {
            Ok(text) => execute_request(
                match handle { Some(h) => Some(h.connection_spec() is Some), None => None },
                match sql { Some(s) => Some(s@), None => None },
            ) == Ok::<Seq<char>, OdbcError>(text@),
            Err(status) => execute_request(
                match handle { Some(h) => Some(h.connection_spec() is Some), None => None },
                match sql { Some(s) => Some(s@), None => None },
            ) == Err::<Seq<char>, OdbcError>(status),
        },
{
    let h = match handle {
        Some(h) => h,
        None => { return Err(OdbcError::NullPointer); },
    };
    let bytes = match sql {
        Some(b) => b,
        None => { return Err(OdbcError::NullPointer); },
    };
    if h.connection.is_none() {
        return Err(OdbcError::InvalidHandle);
    }
    match decode_text(bytes) {
        Some(text) => Ok(text),
        None => Err(OdbcError::StringConversionError),
    }
}

/// Makes the zero-terminated string that the callback is given for a text
/// unit.
pub fn text_payload(unit: &[u8]) -> (payload: Option<Vec<u8>>)
    ensures
        match payload {
            Some(bytes) => text_payload_spec(unit@) == Some(bytes@),
            None => text_payload_spec(unit@) is None,
        },
{
    let mut out: Vec<u8> = Vec::new();
    let mut i: usize = 0;
    while i < unit.len()
        invariant
            i <= unit@.len(),
            out@ == unit@.take(i as int),
            forall|k: int| 0 <= k < i ==> unit@[k] != 0,
        decreases unit@.len() - i,
    {
        if unit[i] == 0 {
            return None;
        }
        out.push(unit[i]);
        assert(unit@.take(i + 1) =~= unit@.take(i as int).push(unit@[i as int]));
        i += 1;
    }
    assert(unit@.take(unit@.len() as int) =~= unit@);
    out.push(0);
    Some(out)
}

/// The status of an execute whose statement has run.
pub fn odbc_executed(outcome: ExecOutcome) -> (status: OdbcError)
    ensures
        status == executed_status(outcome),
{
    match outcome {
        ExecOutcome::Completed => OdbcError::Success,
        ExecOutcome::Failed => OdbcError::ExecutionError,
        ExecOutcome::Faulted => OdbcError::Panic,
    }
}

/// Releases the handle and what it owns.
pub fn odbc_free_connection<M, C>(handle: Option<OdbcConnectionHandle<M, C>>) -> (status: OdbcError)
    ensures
        status == freed_status(handle is Some),
{
    match handle {
        None => OdbcError::InvalidHandle,
        Some(_) => OdbcError::Success,
    }
}

/// What a fresh handle and a handle with a new connection hold.
pub proof fn handle_contents<M, C>(manager: M, handle: OdbcConnectionHandle<M, C>, connection: C)
    ensures
        OdbcConnectionHandle::<M, C>::fresh(manager).manager_spec() == Some(manager),
        OdbcConnectionHandle::<M, C>::fresh(manager).connection_spec() is None,
        handle.holding(connection).manager_spec() == handle.manager_spec(),
        handle.holding(connection).connection_spec() == Some(connection),
{
}

/// Create, then connect with a string that decodes and that the manager
/// accepts, then free: every step succeeds, and the handle is connected in
/// between.
pub proof fn lifecycle_succeeds<M, C>(manager: M, conn_str: Seq<u8>, connection: C)
    requires
        valid_utf8(conn_str),
    ensures
        ({
            let created = OdbcConnectionHandle::<M, C>::fresh(manager);
            let (after, status) = created.connected(Some(connection));
            &&& created.is_fresh()
            &&& connect_request(Some(created.manager_spec() is Some), Some(conn_str)) == Ok::<
                Seq<char>,
                OdbcError,
            >(decode_utf8(conn_str))
            &&& status == OdbcError::Success
            &&& after.is_connected()
            &&& after.connection_spec() == Some(connection)
            &&& freed_status(true) == OdbcError::Success
        }),
{
}

/// A connect that the manager refuses leaves the handle as it was, so the
/// connect can be tried again.
pub proof fn refused_connect_keeps_handle<M, C>(handle: OdbcConnectionHandle<M, C>)
    ensures
        handle.connected(None) == (handle, OdbcError::ConnectionError),
{
}

/// A null handle or a null string is answered with `NullPointer`, whatever
/// else holds of the arguments, and nothing else is.
pub proof fn null_is_reported_first(handle: Option<bool>, text: Option<Seq<u8>>)
    ensures
        (handle is None || text is None) <==> connect_request(handle, text) == Err::<
            Seq<char>,
            OdbcError,
        >(OdbcError::NullPointer),
        (handle is None || text is None) <==> execute_request(handle, text) == Err::<
            Seq<char>,
            OdbcError,
        >(OdbcError::NullPointer),
{
}

/// On a handle that holds no connection, an execute with a statement that is
/// not null is answered with `InvalidHandle`: so on a fresh handle, and so
/// after any number of refused connects.
pub proof fn execute_needs_connection<M, C>(handle: OdbcConnectionHandle<M, C>, sql: Seq<u8>)
    requires
        handle.connection_spec() is None,
    ensures
        execute_request(Some(handle.connection_spec() is Some), Some(sql)) == Err::<
            Seq<char>,
            OdbcError,
        >(OdbcError::InvalidHandle),
        execute_request(Some(handle.connected(None).0.connection_spec() is Some), Some(sql))
            == Err::<Seq<char>, OdbcError>(OdbcError::InvalidHandle),
{
}

/// A fault caught while a statement runs is reported as `Panic`, and only a
/// fault is. The handle is no argument of that report, so it is what it was,
/// and freeing it succeeds.
pub proof fn fault_is_contained(outcome: ExecOutcome)
    ensures
        outcome == ExecOutcome::Faulted <==> executed_status(outcome) == OdbcError::Panic,
        outcome == ExecOutcome::Completed <==> executed_status(outcome) == OdbcError::Success,
        freed_status(true) == OdbcError::Success,
{
}

} // verus!
