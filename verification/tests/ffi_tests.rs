use odbc_stream::ffi::{
    odbc_connect, odbc_connected, odbc_create_connection, odbc_execute, odbc_executed,
    odbc_free_connection, text_payload, ExecOutcome, OdbcConnectionHandle, OdbcError,
};

struct Manager;

#[derive(Debug, PartialEq)]
struct Session(u32);

type Handle = OdbcConnectionHandle<Manager, Session>;

fn fresh() -> Handle {
    odbc_create_connection(Some(Manager)).expect("a handle")
}

#[test]
fn the_status_codes_are_stable() {
    assert_eq!(OdbcError::Success.code(), 0);
    assert_eq!(OdbcError::ConnectionError.code(), 1);
    assert_eq!(OdbcError::StringConversionError.code(), 2);
    assert_eq!(OdbcError::InvalidHandle.code(), 3);
    assert_eq!(OdbcError::NullPointer.code(), 4);
    assert_eq!(OdbcError::ExecutionError.code(), 5);
    assert_eq!(OdbcError::Panic.code(), 6);
}

#[test]
fn test_create_connection() {
    let handle: Option<Handle> = odbc_create_connection(Some(Manager));
    assert!(handle.is_some(), "Expected a valid connection handle");
    let free_result = odbc_free_connection(handle);
    assert_eq!(free_result, OdbcError::Success, "Expected successful free operation");
}

#[test]
fn no_manager_gives_no_handle() {
    let handle: Option<Handle> = odbc_create_connection(None);
    assert!(handle.is_none());
}

#[test]
fn a_fresh_handle_holds_its_manager_and_no_connection() {
    let handle = fresh();
    assert!(handle.manager().is_some());
    assert!(handle.connection().is_none());
}

#[test]
fn ffi_test_test_connect_success() {
    let mut handle = fresh();
    let request = odbc_connect(Some(&handle), Some(b"DSN=PostgreSQL;UID=user;PWD=password;"));
    assert_eq!(request, Ok("DSN=PostgreSQL;UID=user;PWD=password;".to_string()));
    let connect_result = odbc_connected(&mut handle, Some(Session(1)));
    assert_eq!(connect_result, OdbcError::Success);
    assert_eq!(handle.connection(), Some(&Session(1)));
    assert_eq!(odbc_free_connection(Some(handle)), OdbcError::Success);
}

#[test]
fn conn_test_test_connect_success() {
    let mut handle = fresh();
    assert!(odbc_connect(Some(&handle), Some(b"Driver={SQLite3};Database=:memory:")).is_ok());
    assert_eq!(odbc_connected(&mut handle, Some(Session(7))), OdbcError::Success);
    assert!(handle.connection().is_some());
}

#[test]
fn test_null_handle() {
    let result = odbc_connect::<Manager, Session>(None, Some(b"dummy"));
    assert_eq!(
        result,
        Err(OdbcError::NullPointer),
        "Should return NullPointer error for null handle"
    );
}

#[test]
fn test_null_connection_string() {
    let handle = fresh();
    let result = odbc_connect(Some(&handle), None);
    assert_eq!(
        result,
        Err(OdbcError::NullPointer),
        "Should return NullPointer error for null connection string"
    );
    assert_eq!(odbc_free_connection(Some(handle)), OdbcError::Success);
}

#[test]
fn null_comes_before_every_other_check() {
    assert_eq!(odbc_connect::<Manager, Session>(None, None), Err(OdbcError::NullPointer));
    assert_eq!(odbc_connect::<Manager, Session>(None, Some(&[0xff])), Err(OdbcError::NullPointer));
    assert_eq!(odbc_execute::<Manager, Session>(None, None), Err(OdbcError::NullPointer));
    assert_eq!(odbc_execute::<Manager, Session>(None, Some(b"x")), Err(OdbcError::NullPointer));
    let handle = fresh();
    assert_eq!(odbc_execute(Some(&handle), None), Err(OdbcError::NullPointer));
}

#[test]
fn a_string_that_is_no_text_is_refused() {
    let mut handle = fresh();
    assert_eq!(odbc_connect(Some(&handle), Some(&[0x44, 0xff])), Err(OdbcError::StringConversionError));
    assert_eq!(odbc_connect(Some(&handle), Some(&[0xc3])), Err(OdbcError::StringConversionError));
    assert_eq!(odbc_connected(&mut handle, Some(Session(1))), OdbcError::Success);
    assert_eq!(odbc_execute(Some(&handle), Some(&[0xe2, 0x82])), Err(OdbcError::StringConversionError));
}

#[test]
fn text_is_decoded_as_it_stands() {
    let mut handle = fresh();
    assert_eq!(
        odbc_connect(Some(&handle), Some("DSN=gr\u{fc}n".as_bytes())),
        Ok("DSN=gr\u{fc}n".to_string())
    );
    assert_eq!(odbc_connect(Some(&handle), Some(b"")), Ok(String::new()));
    odbc_connected(&mut handle, Some(Session(1)));
    assert_eq!(
        odbc_execute(Some(&handle), Some("SELECT '\u{20ac}'".as_bytes())),
        Ok("SELECT '\u{20ac}'".to_string())
    );
}

#[test]
fn a_refused_connect_leaves_the_handle_fresh() {
    let mut handle = fresh();
    assert_eq!(odbc_connected(&mut handle, None), OdbcError::ConnectionError);
    assert!(handle.connection().is_none());
    assert!(handle.manager().is_some());
    assert_eq!(odbc_execute(Some(&handle), Some(b"SELECT 1")), Err(OdbcError::InvalidHandle));
    assert_eq!(odbc_connected(&mut handle, Some(Session(2))), OdbcError::Success);
    assert_eq!(odbc_connected(&mut handle, None), OdbcError::ConnectionError);
    assert_eq!(handle.connection(), Some(&Session(2)));
}

#[test]
fn execute_before_connect_is_refused() {
    let handle = fresh();
    assert_eq!(odbc_execute(Some(&handle), Some(b"SELECT 1")), Err(OdbcError::InvalidHandle));
    assert_eq!(odbc_execute(Some(&handle), Some(&[0xff])), Err(OdbcError::InvalidHandle));
}

#[test]
fn execute_after_connect_hands_out_the_statement() {
    let mut handle = fresh();
    odbc_connected(&mut handle, Some(Session(1)));
    assert_eq!(odbc_execute(Some(&handle), Some(b"SELECT 1")), Ok("SELECT 1".to_string()));
    assert_eq!(odbc_execute(Some(&handle), Some(b"SELECT 2")), Ok("SELECT 2".to_string()));
}

#[test]
fn the_outcome_of_a_statement_gives_the_status() {
    assert_eq!(odbc_executed(ExecOutcome::Completed), OdbcError::Success);
    assert_eq!(odbc_executed(ExecOutcome::Failed), OdbcError::ExecutionError);
    assert_eq!(odbc_executed(ExecOutcome::Faulted), OdbcError::Panic);
}

#[test]
fn a_fault_leaves_the_handle_usable() {
    let mut handle = fresh();
    odbc_connected(&mut handle, Some(Session(1)));
    assert!(odbc_execute(Some(&handle), Some(b"SELECT 1")).is_ok());
    assert_eq!(odbc_executed(ExecOutcome::Faulted).code(), 6);
    assert!(odbc_execute(Some(&handle), Some(b"SELECT 1")).is_ok());
    assert_eq!(odbc_free_connection(Some(handle)), OdbcError::Success);
}

#[test]
fn freeing_a_null_handle_is_refused() {
    assert_eq!(odbc_free_connection::<Manager, Session>(None), OdbcError::InvalidHandle);
}

#[test]
fn test_integration_workflow() {
    let mut handle = fresh();
    let request = odbc_connect(Some(&handle), Some(b"DSN=missing"));
    assert!(request.is_ok());
    let connect_result = odbc_connected(&mut handle, None);
    if connect_result == OdbcError::Success {
        println!("Connection established successfully");
    } else {
        println!("Connection failed with error code: {}", connect_result.code());
    }
    let free_result = odbc_free_connection(Some(handle));
    assert_eq!(free_result, OdbcError::Success, "Failed to free connection");
}

#[test]
fn a_text_unit_is_handed_over_with_a_terminator() {
    assert_eq!(text_payload(b"id,name"), Some(b"id,name\0".to_vec()));
    assert_eq!(text_payload(b""), Some(vec![0]));
    assert_eq!(text_payload(b"a\0b"), None);
    assert_eq!(text_payload(&[0]), None);
}
