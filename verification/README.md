# verix

A device verification service for Android phones. On start it reads the
device identity (board serial number, chip name, model and build fingerprint
from the system property file), keeps an AES-256-CBC sealed record of it in a
data file, checks that the environment is genuine, and gives the device an
hour to be verified against an online list of boards before it reboots it.
A small web panel answers verification requests and password-protected
developer pages.

Layout:

- `src/` — the verified library (Verus):
  - `text.rs` — white space, trimming, line splitting, decimal rendering;
  - `flags.rs` — the device record, file locations, the property file parser;
  - `log.rs` — the activity log and what it hands to the log file;
  - `aes_utils.rs`, `file_utils.rs` — sealing and opening the data file;
  - `system_utils.rs` — what a finished shell command amounts to;
  - `check.rs` — environment check, first start, waiting period, online check, reboot;
  - `panel.rs` — the answers of the web panel.
- `app/main.rs` — the program: files, processes, clock, network, serialisation.
- `tests/` — tests of the library on concrete values.

The program expects the AES key in a file `key` and the two panel pages in
`public/index.impl` and `public/already_login.impl`, in its working directory.
