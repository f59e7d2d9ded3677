//! What the web panel answers: the start page, the verification request and
//! the password-protected developer pages.

use vstd::prelude::*;
use vstd::string::*;
use vstd::utf8::{decode_utf8, valid_utf8};

use crate::check::{reboot_commands, reboot_log, reboot_shell};
use crate::flags::PhoneVar;
use crate::log::{info_line, Plog};
use crate::system_utils::{utf8_or_empty, utf8_text, ShellError};
use crate::text::{join, views};

verus! {

/// Password of the developer pages.
pub const DEV_PASSWORD: &'static str = "114514";

/// Port the panel listens on.
pub const PANEL_PORT: &'static str = "8888";

/// Address the panel listens on.
pub const OPEN_IP: &'static str = "0.0.0.0";

/// The address that stands for every interface.
pub const ANY_ADDRESS: &'static str = "0.0.0.0";

/// Page a developer page shows for a wrong password.
pub const ERROR_PAGE: &'static str = "<h1>Error</h1>";

/// Page the reboot page shows when a reboot was requested.
pub const REBOOT_PAGE: &'static str = "<h1>Reboot</h1>";

/// The answer to a verification request: the board and whether it is verified.
pub struct VerifyReply {
    pub id: String,
    pub verify: bool,
}

/// Whether `pwd` is the developer password.
pub fn dev_password_ok(pwd: &str) -> (r: bool)
    ensures
        r == (pwd@ == DEV_PASSWORD@),
{
    String::from_str(pwd) == String::from_str(DEV_PASSWORD)
}

/// The start page: `verified_page` for a verified device, `login_page`
/// otherwise; a page that is not UTF-8 shows as empty.
pub fn index(verify_status: bool, verified_page: &[u8], login_page: &[u8]) -> (html: String)
    ensures
        html@ == utf8_or_empty(if verify_status { verified_page@ } else { login_page@ }),
        valid_utf8(if verify_status { verified_page@ } else { login_page@ }) ==> html@ == decode_utf8(
            if verify_status { verified_page@ } else { login_page@ },
        ),
        !valid_utf8(if verify_status { verified_page@ } else { login_page@ }) ==> html@.len() == 0,
{
    let page = if verify_status {
        verified_page
    } else {
        login_page
    };
    match utf8_text(page) {
        Ok(text) => text,
        Err(_) => String::new(),
    }
}

/// Answers a verification request whose online check gave `verified`: the
/// board id and the verdict; a verified device is marked verified, checked
/// at `now`, and is to be written to the data file.
pub fn verify_api(flags: &mut PhoneVar, verified: bool, now: u64) -> (reply: VerifyReply)
    ensures
        reply.id@ == old(flags).board_id@,
        reply.verify == verified,
        final(flags).verify_status == (old(flags).verify_status || verified),
        final(flags).check_time == if verified {
            now
        } else {
            old(flags).check_time
        },
        final(flags).board_id == old(flags).board_id,
        final(flags).phone_model == old(flags).phone_model,
        final(flags).chip_name == old(flags).chip_name,
        final(flags).finger == old(flags).finger,
        final(flags).install_time == old(flags).install_time,
{
    let reply = VerifyReply { id: flags.board_id.clone(), verify: verified };
    if verified {
        flags.verify_status = true;
        flags.check_time = now;
    }
    reply
}

/// The developer reboot page: logs the request and, with the right
/// password, requests a reboot; gives the page and the commands to run.
pub fn dev_reboot(log: &mut Plog, pwd: &str, release: bool) -> (r: (String, Vec<String>))
    ensures
        pwd@ == DEV_PASSWORD@ ==> r.0@ == REBOOT_PAGE@ && views(r.1@) == reboot_commands(release)
            && Plog::appended(
            *old(log),
            *final(log),
            info_line("dev reboot"@) + reboot_log("Test"@, release),
        ),
        pwd@ != DEV_PASSWORD@ ==> r.0@ == ERROR_PAGE@ && r.1@.len() == 0 && Plog::appended(
            *old(log),
            *final(log),
            info_line("dev reboot"@),
        ),
{
    log.info(String::from_str("dev reboot"));
    if dev_password_ok(pwd) {
        let commands = reboot_shell(log, "Test", release);
        assert(log.log_text() =~= old(log).log_text() + (info_line("dev reboot"@) + reboot_log(
            "Test"@,
            release,
        )));
        assert(log.pending() =~= old(log).pending() + (info_line("dev reboot"@) + reboot_log(
            "Test"@,
            release,
        )));
        (String::from_str(REBOOT_PAGE), commands)
    } else {
        (String::from_str(ERROR_PAGE), Vec::new())
    }
}

/// The developer log page: the whole log with the right password.
pub fn dev_log(log: &Plog, pwd: &str) -> (html: String)
    ensures
        html@ == if pwd@ == DEV_PASSWORD@ {
            log.log_text()
        } else {
            ERROR_PAGE@
        },
{
    if dev_password_ok(pwd) {
        log.all_log()
    } else {
        String::from_str(ERROR_PAGE)
    }
}

/// The developer command page: what the command printed, or its error.
pub fn dev_shell(result: Result<String, ShellError>) -> (reply: String)
    ensures
        reply@ == match result {
            Ok(s) => s@,
            Err(e) => e.message@,
        },
{
    match result {
        Ok(res) => res,
        Err(err) => err.message,
    }
}

/// The log message that tells where the panel is: the listening address,
/// with `localhost` for every interface, and the port.
pub fn panel_url(open_ip: &str, port: &str) -> (msg: String)
    ensures
        msg@ == "Panel URL: "@ + (if open_ip@ == ANY_ADDRESS@ {
            "localhost"@
        } else {
            open_ip@
        }) + ":"@ + port@,
{
    let host = if String::from_str(open_ip) == String::from_str(ANY_ADDRESS) {
        "localhost"
    } else {
        open_ip
    };
    let msg = join("Panel URL: ", host);
    let msg = join(msg.as_str(), ":");
    join(msg.as_str(), port)
}

} // verus!
