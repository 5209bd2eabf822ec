//! What the library decides around the file operations that the program
//! performs: the backup name of a replaced document, and the messages with
//! which a failed read or write stops the run.

use vstd::prelude::*;

verus! {

/// The text of a document that was read, or the message that stops the run
/// when `path` could not be read (`read` carries the system's reason).
pub fn load_file(path: &str, read: Result<String, String>) -> (r: Result<String, String>)
    ensures
        match read {
            Ok(text) => r == Ok::<String, String>(text),
            Err(reason) => r is Err && r->Err_0@ == "Error on loading file "@ + path@ + ": "@
                + reason@,
        },
{
    match read {
        Ok(text) => Ok(text),
        Err(reason) => {
            let mut msg = String::from_str("Error on loading file ");
            msg.append(path);
            msg.append(": ");
            msg.append(reason.as_str());
            Err(msg)
        },
    }
}

/// The name under which the current content of `path` is kept before the
/// rewritten document is created at `path`.
pub fn create_file(path: &str) -> (backup: String)
    ensures
        backup@ == path@ + ".OLD"@,
{
    let mut backup = String::from_str(path);
    backup.append(".OLD");
    backup
}

/// Nothing when a write succeeded, or the message that stops the run when
/// writing the part `section` of the new document failed (`written` carries
/// the system's reason).
pub fn write_on_file(section: &str, written: Result<(), String>) -> (r: Result<(), String>)
    ensures
        match written {
            Ok(_) => r is Ok,
            Err(reason) => r is Err && r->Err_0@ == "Unable to write data in the new file on "@
                + section@ + ": "@ + reason@,
        },
{
    match written {
        Ok(_) => Ok(()),
        Err(reason) => {
            let mut msg = String::from_str("Unable to write data in the new file on ");
            msg.append(section);
            msg.append(": ");
            msg.append(reason.as_str());
            Err(msg)
        },
    }
}

} // verus!
