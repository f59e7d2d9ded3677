//! The decisions of the verification flow: the device environment check,
//! the first start, the waiting period, the online check and the reboot.

use vstd::prelude::*;
use vstd::string::*;
use vstd::utf8::{
    decode_utf8, encode_utf8, encode_utf8_decode_utf8, encode_utf8_valid_utf8, valid_utf8,
};

use crate::aes_utils::{
    aes256_cbc_encrypt, aes_decrypt, is_sealing, opens_to, AesError, CIPHERTEXT_LIMIT,
    CIPHER_LEN_LIMIT, IV_SIZE, KEY_SIZE,
};
use crate::flags::{first_line, PhoneVar};
use crate::log::{error_line, info_line, warn_line, Plog};
use crate::system_utils::ShellError;
use crate::text::{bool_as_text, bool_text, decimal, join, u64_text, views};

verus! {

/// Seconds the device may run unverified after installation.
pub const WAIT_TIME: u64 = 3600;

/// Seconds to wait on the very first start, whatever the installation time.
pub const FIRST_START_WAIT: u64 = 3600;

/// The command whose output shows a mounted serial number.
pub const MOUNT_CHECK_COMMAND: &'static str = "mount | grep -i serial_number";

/// The command that reboots the device.
pub const REBOOT_COMMAND: &'static str = "reboot";

/// The property command that powers the device off into a reboot.
pub const POWERCTL_REBOOT_COMMAND: &'static str = "setprop sys.powerctl reboot";

/// Address of the service that lists the verified boards.
pub const ONLINE_BASE_URL: &'static str = "";

/// HTTP status of a successful answer.
pub const HTTP_OK: u16 = 200;

/// The text of a command's outcome as the flow reads it: its output, or
/// nothing when it failed.
pub open spec fn output_or_empty(result: Result<String, ShellError>) -> Seq<char> {
    match result {
        Ok(s) => s@,
        Err(_) => Seq::empty(),
    }
}

/// The view of an optional text.
pub open spec fn opt_view(t: Option<&str>) -> Option<Seq<char>> {
    match t {
        Some(c) => Some(c@),
        None => None,
    }
}

/// The log lines of a reboot request for `reason`.
pub open spec fn reboot_log(reason: Seq<char>, release: bool) -> Seq<char> {
    error_line("Reboot reason:"@ + reason) + if release {
        error_line("Reboot"@)
    } else {
        Seq::empty()
    }
}

/// The commands that a reboot request runs.
pub open spec fn reboot_commands(release: bool) -> Seq<Seq<char>> {
    if release {
        seq![REBOOT_COMMAND@, POWERCTL_REBOOT_COMMAND@]
    } else {
        Seq::empty()
    }
}

/// Seconds still to wait when the device was installed at `install_time`
/// and it is now `now`.
pub open spec fn wait_time_left(install_time: u64, now: u64) -> int {
    if WAIT_TIME > now - install_time {
        WAIT_TIME - (now - install_time)
    } else {
        0
    }
}

/// What is left of the waiting period: when less than `WAIT_TIME` seconds
/// have gone by since installation, the rest of it; otherwise none.
pub proof fn lemma_wait_time_left(install_time: u64, now: u64)
    requires
        install_time <= now,
    ensures
        now - install_time < WAIT_TIME ==> wait_time_left(install_time, now) + (now - install_time)
            == WAIT_TIME,
        now - install_time >= WAIT_TIME ==> wait_time_left(install_time, now) == 0,
        0 <= wait_time_left(install_time, now) <= WAIT_TIME,
{
}

/// The log lines of the waiting plan.
pub open spec fn wait_plan_log(install_time: u64, first_flag: bool, now: u64) -> Seq<char> {
    let pass = (now - install_time) as nat;
    let sleep = wait_time_left(install_time, now) as nat;
    info_line("等待时间:"@ + decimal(sleep)) + info_line("第一次启动:"@ + bool_text(first_flag))
        + info_line(
        "当前时间:"@ + decimal(now as nat) + " 安装时间:"@ + decimal(install_time as nat)
            + " 经过时间:"@ + decimal(pass) + " 休眠时间:"@ + decimal(sleep),
    )
}

/// The number held by eight bytes, least significant first.
pub open spec fn le_u64(b: Seq<u8>) -> nat {
    (b[0] + 256 * (b[1] + 256 * (b[2] + 256 * (b[3] + 256 * (b[4] + 256 * (b[5] + 256 * (b[6]
        + 256 * b[7]))))))) as nat
}

/// `count` texts at the start of `b`, each a length in eight little-endian
/// bytes followed by that many bytes of UTF-8; what follows is ignored.
pub open spec fn bincode_texts(b: Seq<u8>, count: nat) -> Option<Seq<Seq<char>>>
    decreases count,
{
    if count == 0 {
        Some(Seq::empty())
    } else if b.len() < 8 {
        None
    } else {
        let n = le_u64(b.take(8));
        let rest = b.skip(8);
        if n > rest.len() || !valid_utf8(rest.take(n as int)) {
            None
        } else {
            match bincode_texts(rest.skip(n as int), (count - 1) as nat) {
                Some(t) => Some(seq![decode_utf8(rest.take(n as int))] + t),
                None => None,
            }
        }
    }
}

/// The list of texts that `bytes` hold in bincode's default format: a count
/// in eight little-endian bytes, then that many texts; trailing bytes are
/// allowed.
pub open spec fn bincode_text_list(bytes: Seq<u8>) -> Option<Seq<Seq<char>>> {
    if bytes.len() < 8 {
        None
    } else {
        bincode_texts(bytes.skip(8), le_u64(bytes.take(8)))
    }
}

/// `n` as eight bytes, least significant first.
pub open spec fn le_bytes8(n: nat) -> Seq<u8> {
    let n1 = n / 256;
    let n2 = n1 / 256;
    let n3 = n2 / 256;
    let n4 = n3 / 256;
    let n5 = n4 / 256;
    let n6 = n5 / 256;
    let n7 = n6 / 256;
    seq![
        (n % 256) as u8,
        (n1 % 256) as u8,
        (n2 % 256) as u8,
        (n3 % 256) as u8,
        (n4 % 256) as u8,
        (n5 % 256) as u8,
        (n6 % 256) as u8,
        (n7 % 256) as u8,
    ]
}

/// The texts of `list`, each as its UTF-8 length in eight bytes followed by
/// its UTF-8 bytes.
pub open spec fn bincode_encoded_texts(list: Seq<Seq<char>>) -> Seq<u8>
    decreases list.len(),
{
    if list.len() == 0 {
        Seq::empty()
    } else {
        let b = encode_utf8(list[0]);
        le_bytes8(b.len()) + b + bincode_encoded_texts(list.drop_first())
    }
}

/// The bytes that serialise `list` as a bincode list of texts: its length in
/// eight bytes, then its texts.
pub open spec fn bincode_encoded_list(list: Seq<Seq<char>>) -> Seq<u8> {
    le_bytes8(list.len()) + bincode_encoded_texts(list)
}

/// Eight bytes read back give the number they were written from.
pub proof fn lemma_le_bytes8(n: nat)
    requires
        n < 0x1_0000_0000_0000_0000,
    ensures
        le_u64(le_bytes8(n)) == n,
{
    let b = le_bytes8(n);
    let n1 = n / 256;
    let n2 = n1 / 256;
    let n3 = n2 / 256;
    let n4 = n3 / 256;
    let n5 = n4 / 256;
    let n6 = n5 / 256;
    let n7 = n6 / 256;
    assert(n == n % 256 + 256 * n1);
    assert(n1 == n1 % 256 + 256 * n2);
    assert(n2 == n2 % 256 + 256 * n3);
    assert(n3 == n3 % 256 + 256 * n4);
    assert(n4 == n4 % 256 + 256 * n5);
    assert(n5 == n5 % 256 + 256 * n6);
    assert(n6 == n6 % 256 + 256 * n7);
    assert(n7 < 256) by (nonlinear_arith)
        requires
            n < 0x1_0000_0000_0000_0000,
            n1 == n / 256,
            n2 == n1 / 256,
            n3 == n2 / 256,
            n4 == n3 / 256,
            n5 == n4 / 256,
            n6 == n5 / 256,
            n7 == n6 / 256,
    ;
    assert(n7 % 256 == n7);
    assert(b[0] == n % 256 && b[1] == n1 % 256 && b[2] == n2 % 256 && b[3] == n3 % 256);
    assert(b[4] == n4 % 256 && b[5] == n5 % 256 && b[6] == n6 % 256 && b[7] == n7 % 256);
}

/// One text read: its length, its bytes, then the texts after it.
proof fn lemma_bincode_texts_step(b: Seq<u8>, later: Seq<u8>, count: nat)
    requires
        b.len() < 0x1_0000_0000_0000_0000,
        valid_utf8(b),
        count > 0,
    ensures
        bincode_texts(le_bytes8(b.len()) + b + later, count) == match bincode_texts(
            later,
            (count - 1) as nat,
        ) {
            Some(t) => Some(seq![decode_utf8(b)] + t),
            None => None,
        },
{
    let bytes = le_bytes8(b.len()) + b + later;
    assert(bytes.take(8) =~= le_bytes8(b.len()));
    lemma_le_bytes8(b.len());
    let rest = bytes.skip(8);
    assert(rest =~= b + later);
    assert(rest.take(b.len() as int) =~= b);
    assert(rest.skip(b.len() as int) =~= later);
}

proof fn lemma_bincode_texts_encoded(list: Seq<Seq<char>>, trailing: Seq<u8>)
    requires
        forall|i: int| 0 <= i < list.len() ==> encode_utf8(#[trigger] list[i]).len() < 0x1_0000_0000_0000_0000,
    ensures
        bincode_texts(bincode_encoded_texts(list) + trailing, list.len()) == Some(list),
    decreases list.len(),
{
    if list.len() == 0 {
        assert(list =~= Seq::<Seq<char>>::empty());
    } else {
        let b = encode_utf8(list[0]);
        let tail = list.drop_first();
        assert forall|i: int| 0 <= i < tail.len() implies encode_utf8(#[trigger] tail[i]).len()
            < 0x1_0000_0000_0000_0000 by {
            assert(tail[i] == list[i + 1]);
        }
        lemma_bincode_texts_encoded(tail, trailing);
        let later = bincode_encoded_texts(tail) + trailing;
        assert(bincode_encoded_texts(list) + trailing =~= le_bytes8(b.len()) + b + later);
        encode_utf8_valid_utf8(list[0]);
        encode_utf8_decode_utf8(list[0]);
        lemma_bincode_texts_step(b, later, list.len());
        assert(seq![list[0]] + tail =~= list);
    }
}

/// A list of texts serialised by bincode, whatever follows it, is read back
/// as that list.
pub proof fn lemma_bincode_text_list_round_trip(list: Seq<Seq<char>>, trailing: Seq<u8>)
    requires
        list.len() < 0x1_0000_0000_0000_0000,
        forall|i: int| 0 <= i < list.len() ==> encode_utf8(#[trigger] list[i]).len() < 0x1_0000_0000_0000_0000,
    ensures
        bincode_text_list(bincode_encoded_list(list) + trailing) == Some(list),
{
    let bytes = bincode_encoded_list(list) + trailing;
    assert(bytes =~= le_bytes8(list.len()) + (bincode_encoded_texts(list) + trailing));
    assert(bytes.take(8) =~= le_bytes8(list.len()));
    assert(bytes.skip(8) =~= bincode_encoded_texts(list) + trailing);
    lemma_le_bytes8(list.len());
    lemma_bincode_texts_encoded(list, trailing);
}

/// `bincode::deserialize::<Vec<String>>` (fixed-width integers, trailing
/// bytes allowed): the list that `bytes` hold, as `bincode_text_list` reads
/// it, or nothing when they hold none.
#[verifier::external_body]
fn decode_text_list(bytes: &[u8]) -> (r: Option<Vec<String>>)
    ensures
        match r {
            Some(v) => bincode_text_list(bytes@) == Some(views(v@)),
            None => bincode_text_list(bytes@) is None,
        },
{
    bincode::deserialize::<Vec<String>>(bytes).ok()
}

/// Logs the outcome of a command: its output as information, its error as
/// an error.
pub fn exec_cmd(log: &mut Plog, result: Result<String, ShellError>)
    ensures
        Plog::appended(
            *old(log),
            *final(log),
            match result {
                Ok(s) => info_line(s@),
                Err(e) => error_line(e.message@),
            },
        ),
{
    match result {
        Ok(output) => log.info(output),
        Err(err) => log.error(err.message),
    }
}

/// Logs a reboot request for `reason` and gives the commands that reboot
/// the device; in a debug build (`release` false) nothing is to be run.
pub fn reboot_shell(log: &mut Plog, reason: &str, release: bool) -> (commands: Vec<String>)
    ensures
        Plog::appended(*old(log), *final(log), reboot_log(reason@, release)),
        views(commands@) == reboot_commands(release),
{
    log.error(join("Reboot reason:", reason));
    let mut commands: Vec<String> = Vec::new();
    if release {
        log.error(String::from_str("Reboot"));
        commands.push(String::from_str(REBOOT_COMMAND));
        commands.push(String::from_str(POWERCTL_REBOOT_COMMAND));
    }
    assert(views(commands@) =~= reboot_commands(release));
    assert(log.log_text() =~= old(log).log_text() + reboot_log(reason@, release));
    assert(log.pending() =~= old(log).pending() + reboot_log(reason@, release));
    commands
}

/// Whether the device environment is genuine: nothing mounted over the
/// serial number (`mount_check` printed nothing or failed) and the board id
/// read now (first line of `board_id_file`, `None` when unreadable) is the
/// recorded one. Both findings are logged.
pub fn fake_id(
    log: &mut Plog,
    board_id_file: Option<&str>,
    mount_check: Result<String, ShellError>,
    v_local: &PhoneVar,
) -> (r: bool)
    ensures
        r == (output_or_empty(mount_check).len() == 0 && first_line(opt_view(board_id_file))
            == v_local.board_id@),
        Plog::appended(
            *old(log),
            *final(log),
            info_line("挂载表检测:"@ + output_or_empty(mount_check)) + info_line(
                "主板ID新旧对比:"@ + first_line(opt_view(board_id_file)) + " "@
                    + v_local.board_id@,
            ),
        ),
{
    let bid = PhoneVar::get_first_line(board_id_file);
    let r = match mount_check {
        Ok(output) => output,
        Err(_) => String::new(),
    };
    log.info(join("挂载表检测:", r.as_str()));
    let compared = join("主板ID新旧对比:", bid.as_str());
    let compared = join(compared.as_str(), " ");
    let compared = join(compared.as_str(), v_local.board_id.as_str());
    log.info(compared);
    let genuine = r.as_str().is_empty() && bid == v_local.board_id;
    let ghost text = info_line("挂载表检测:"@ + output_or_empty(mount_check)) + info_line(
        "主板ID新旧对比:"@ + first_line(opt_view(board_id_file)) + " "@ + v_local.board_id@);
    assert(bid@ == first_line(opt_view(board_id_file)));
    assert(log.log_text() =~= old(log).log_text() + text);
    assert(log.pending() =~= old(log).pending() + text);
    genuine
}

/// Logs the result of the environment check and, when the environment is
/// not genuine, requests a reboot; gives the commands to run.
pub fn environment_check(log: &mut Plog, is_safe: bool, release: bool) -> (commands: Vec<String>)
    ensures
        Plog::appended(
            *old(log),
            *final(log),
            info_line("设备环境检查:"@ + bool_text(is_safe)) + if is_safe {
                Seq::<char>::empty()
            } else {
                reboot_log("Phone Environment Unsafe"@, release)
            },
        ),
        views(commands@) == if is_safe {
            Seq::<Seq<char>>::empty()
        } else {
            reboot_commands(release)
        },
{
    log.info(join("设备环境检查:", bool_as_text(is_safe).as_str()));
    let ghost verdict_line = info_line("设备环境检查:"@ + bool_text(is_safe));
    if is_safe {
        let commands: Vec<String> = Vec::new();
        assert(views(commands@) =~= Seq::<Seq<char>>::empty());
        assert(log.log_text() =~= old(log).log_text() + (verdict_line + Seq::<char>::empty()));
        assert(log.pending() =~= old(log).pending() + (verdict_line + Seq::<char>::empty()));
        commands
    } else {
        let commands = reboot_shell(log, "Phone Environment Unsafe", release);
        let ghost reboot_lines = reboot_log("Phone Environment Unsafe"@, release);
        assert(log.log_text() =~= old(log).log_text() + (verdict_line + reboot_lines));
        assert(log.pending() =~= old(log).pending() + (verdict_line + reboot_lines));
        commands
    }
}

/// The start-up step: with the record found in the data file (`stored`),
/// takes its installation time, check time and verification state into
/// `flags` and gives it back; without one, marks the first start and gives
/// `flags` back, to be written to the data file.
pub fn create_and_read_local_file(
    log: &mut Plog,
    flags: &mut PhoneVar,
    first_flag: &mut bool,
    stored: Option<PhoneVar>,
) -> (file_val: PhoneVar)
    ensures
        match stored {
            Some(v) => {
                &&& file_val == v
                &&& final(flags).board_id == old(flags).board_id
                &&& final(flags).phone_model == old(flags).phone_model
                &&& final(flags).chip_name == old(flags).chip_name
                &&& final(flags).finger == old(flags).finger
                &&& final(flags).install_time == v.install_time
                &&& final(flags).check_time == v.check_time
                &&& final(flags).verify_status == v.verify_status
                &&& *final(first_flag) == *old(first_flag)
                &&& Plog::appended(*old(log), *final(log), info_line("Found File"@))
            },
            None => {
                &&& file_val == *old(flags)
                &&& *final(flags) == *old(flags)
                &&& *final(first_flag)
                &&& Plog::appended(*old(log), *final(log), warn_line("Not Found"@))
            },
        },
{
    match stored {
        Some(file_val) => {
            log.info(String::from_str("Found File"));
            flags.install_time = file_val.install_time;
            flags.check_time = file_val.check_time;
            flags.verify_status = file_val.verify_status;
            file_val
        },
        None => {
            log.warn(String::from_str("Not Found"));
            let file_val = flags.clone();
            *first_flag = true;
            file_val
        },
    }
}

/// First step of the waiting period: an installation time later than `now`
/// (a clock set back) is reset to `now`; tells whether that happened, in
/// which case the record is to be written to the data file.
pub fn wait_check_reset(flags: &mut PhoneVar, now: u64) -> (reset: bool)
    ensures
        reset == (old(flags).install_time > now),
        final(flags).install_time == if reset {
            now
        } else {
            old(flags).install_time
        },
        final(flags).board_id == old(flags).board_id,
        final(flags).phone_model == old(flags).phone_model,
        final(flags).chip_name == old(flags).chip_name,
        final(flags).finger == old(flags).finger,
        final(flags).verify_status == old(flags).verify_status,
        final(flags).check_time == old(flags).check_time,
{
    if flags.install_time > now {
        flags.install_time = now;
        true
    } else {
        false
    }
}

/// Second step of the waiting period: logs the plan and gives the seconds to
/// sleep: a full `FIRST_START_WAIT` on the first start, otherwise what is
/// left of `WAIT_TIME` since installation (none when it has run out).
pub fn wait_check_plan(log: &mut Plog, install_time: u64, first_flag: bool, now: u64) -> (sleep: u64)
    requires
        install_time <= now,
    ensures
        sleep == if first_flag {
            FIRST_START_WAIT as int
        } else {
            wait_time_left(install_time, now)
        },
        !first_flag && now - install_time < WAIT_TIME ==> sleep + (now - install_time) == WAIT_TIME,
        !first_flag && now - install_time >= WAIT_TIME ==> sleep == 0,
        Plog::appended(*old(log), *final(log), wait_plan_log(install_time, first_flag, now)),
{
    let pass_time = now - install_time;
    let sleep_time = if WAIT_TIME > pass_time {
        WAIT_TIME - pass_time
    } else {
        0
    };
    log.info(join("等待时间:", u64_text(sleep_time).as_str()));
    log.info(join("第一次启动:", bool_as_text(first_flag).as_str()));
    let mut times = join("当前时间:", u64_text(now).as_str());
    times = join(times.as_str(), " 安装时间:");
    times = join(times.as_str(), u64_text(install_time).as_str());
    times = join(times.as_str(), " 经过时间:");
    times = join(times.as_str(), u64_text(pass_time).as_str());
    times = join(times.as_str(), " 休眠时间:");
    times = join(times.as_str(), u64_text(sleep_time).as_str());
    log.info(times);
    assert(log.log_text() =~= old(log).log_text() + wait_plan_log(install_time, first_flag, now));
    assert(log.pending() =~= old(log).pending() + wait_plan_log(install_time, first_flag, now));
    if first_flag {
        FIRST_START_WAIT
    } else {
        sleep_time
    }
}

/// Last step of the waiting period: a verified device is logged as such;
/// otherwise a reboot is requested. Gives the commands to run.
pub fn wait_check_finish(log: &mut Plog, verify_status: bool, release: bool) -> (commands: Vec<
    String,
>)
    ensures
        verify_status ==> Plog::appended(*old(log), *final(log), info_line("验证通过!"@))
            && commands@.len() == 0,
        !verify_status ==> Plog::appended(*old(log), *final(log), reboot_log("验证超时"@, release))
            && views(commands@) == reboot_commands(release),
{
    if verify_status {
        log.info(String::from_str("验证通过!"));
        Vec::new()
    } else {
        reboot_shell(log, "验证超时", release)
    }
}

/// Where the list of verified boards for `phone_model` is published.
pub fn online_check_url(phone_model: &str) -> (url: String)
    ensures
        url@ == ONLINE_BASE_URL@ + "/"@ + phone_model@ + "-"@ + "rs"@ + ".vf"@,
{
    let url = join(ONLINE_BASE_URL, "/");
    let url = join(url.as_str(), phone_model);
    let url = join(url.as_str(), "-");
    let url = join(url.as_str(), "rs");
    join(url.as_str(), ".vf")
}

/// Whether `board_id` is among the verified boards `verified`.
pub fn online_verdict(verified: &Vec<String>, board_id: &str) -> (r: bool)
    ensures
        r == views(verified@).contains(board_id@),
{
    let id = String::from_str(board_id);
    let mut i: usize = 0;
    while i < verified.len()
        invariant
            i <= verified@.len(),
            id@ == board_id@,
            forall|j: int| 0 <= j < i ==> (#[trigger] verified@[j])@ != board_id@,
        decreases verified@.len() - i,
    {
        if verified[i] == id {
            assert(views(verified@)[i as int] == board_id@);
            return true;
        }
        i = i + 1;
    }
    assert forall|j: int| 0 <= j < views(verified@).len() implies #[trigger] views(verified@)[j]
        != board_id@ by {
        assert(views(verified@)[j] == verified@[j]@);
    }
    false
}

/// Why the answer of the online check could not be read.
#[derive(Debug)]
pub enum OnlineError {
    /// The answer did not open under the key.
    Decrypt(AesError),
    /// The opened answer is not a list of board ids.
    Malformed,
}

/// The online check, from the answer of the service: an answer other than
/// `HTTP_OK` means not verified; otherwise the body is opened under `key`
/// and read as the list of verified boards, which must hold `board_id`.
/// With a key of `KEY_SIZE` bytes and a body that opens to such a list, the
/// verdict is owed; with such a key, `Decrypt` comes exactly when the body
/// is not sealed under it, `Malformed` exactly when it opens to bytes that
/// hold no list.
pub fn online_check(status: u16, body: &Vec<u8>, key: &Vec<u8>, board_id: &str) -> (r: Result<
    bool,
    OnlineError,
>)
    requires
        status == HTTP_OK ==> body@.len() >= IV_SIZE && body@.len() <= CIPHER_LEN_LIMIT
            && key@.len() <= CIPHER_LEN_LIMIT,
    ensures
        status != HTTP_OK ==> (r matches Ok(v) && !v),
        status == HTTP_OK ==> (r matches Ok(v) ==> exists|p: Seq<u8>, list: Seq<Seq<char>>|
            opens_to(key@, body@, p) && bincode_text_list(p) == Some(list) && v
                == list.contains(board_id@)),
        status == HTTP_OK ==> (r matches Err(OnlineError::Malformed) ==> exists|p: Seq<u8>|
            opens_to(key@, body@, p) && bincode_text_list(p) is None),
        status == HTTP_OK && key@.len() == KEY_SIZE && body@.len() <= IV_SIZE + CIPHERTEXT_LIMIT
            ==> forall|p: Seq<u8>, list: Seq<Seq<char>>|
            opens_to(key@, body@, p) && bincode_text_list(p) == Some(list) ==> (r matches Ok(v)
                && v == list.contains(board_id@)),
        status == HTTP_OK && key@.len() == KEY_SIZE && body@.len() <= IV_SIZE + CIPHERTEXT_LIMIT
            ==> ((r matches Err(OnlineError::Decrypt(_))) <==> !is_sealing(key@, body@)),
        status == HTTP_OK && key@.len() == KEY_SIZE && body@.len() <= IV_SIZE + CIPHERTEXT_LIMIT
            ==> ((r matches Err(OnlineError::Malformed)) <==> exists|p: Seq<u8>|
            opens_to(key@, body@, p) && bincode_text_list(p) is None),
{
    if status != HTTP_OK {
        return Ok(false);
    }
    proof {
        assert forall|p: Seq<u8>, list: Seq<Seq<char>>|
            opens_to(key@, body@, p) && bincode_text_list(p) == Some(list) implies is_sealing(
            key@,
            body@,
        ) by {
            assert(aes256_cbc_encrypt(key@, body@.take(IV_SIZE as int), p) == body@.skip(
                IV_SIZE as int,
            ));
        }
    }
    let decrypted = match aes_decrypt(key, body) {
        Ok(p) => p,
        Err(e) => return Err(OnlineError::Decrypt(e)),
    };
    assert(aes256_cbc_encrypt(key@, body@.take(IV_SIZE as int), decrypted@) == body@.skip(
        IV_SIZE as int,
    ));
    assert(is_sealing(key@, body@));
    match decode_text_list(decrypted.as_slice()) {
        Some(online_id) => {
            let v = online_verdict(&online_id, board_id);
            assert(opens_to(key@, body@, decrypted@) && bincode_text_list(decrypted@) == Some(
                views(online_id@),
            ));
            proof {
                assert forall|p: Seq<u8>, list: Seq<Seq<char>>|
                    opens_to(key@, body@, p) && bincode_text_list(p) == Some(list) implies v
                    == list.contains(board_id@) by {
                    assert(aes256_cbc_encrypt(key@, body@.take(IV_SIZE as int), p) == body@.skip(
                        IV_SIZE as int,
                    ));
                    assert(p == decrypted@);
                }
                assert forall|p: Seq<u8>|
                    opens_to(key@, body@, p) implies !(bincode_text_list(p) is None) by {
                    assert(aes256_cbc_encrypt(key@, body@.take(IV_SIZE as int), p) == body@.skip(
                        IV_SIZE as int,
                    ));
                    assert(p == decrypted@);
                }
            }
            Ok(v)
        },
        None => {
            assert(opens_to(key@, body@, decrypted@));
            proof {
                assert forall|p: Seq<u8>, list: Seq<Seq<char>>|
                    opens_to(key@, body@, p) && bincode_text_list(p) == Some(list) implies false by {
                    assert(aes256_cbc_encrypt(key@, body@.take(IV_SIZE as int), p) == body@.skip(
                        IV_SIZE as int,
                    ));
                    assert(p == decrypted@);
                }
            }
            assert(opens_to(key@, body@, decrypted@) && bincode_text_list(decrypted@) is None);
            Err(OnlineError::Malformed)
        },
    }
}

} // verus!
