# openlink

The decision logic of OpenLink, a CPDLC datalink demonstrator (a Hoppie
ACARS bridge, an auth service, a desktop GUI for aircraft and ATC
stations), written in Verus with its contracts proved.

## Layout

- `src/` — the library, every function verified:
  - Hoppie bridge: `hoppie_client` (wire format of polls and CPDLC
    packets), `session` (MIN/MRN numbering, duplicate detection),
    `translator` (Hoppie packets to and from OpenLink messages), `bridge`
    (what to do with each arriving message), `config` (bridge mode).
  - Auth service: `auth` (CID from an access token, the networks and their
    OIDC providers, server secret, error statuses and messages),
    `nats_claims` (the subjects and claims of the NATS tokens).
  - GUI: `gui_state` (tabs, setup form, message rows), `i18n`, `dcdu` and
    `dcdu_screen` (the aircraft DCDU), `mcdu` (its command pages), `responses` (short responses and
    their buttons), `dialogues` (the ATC pending-requests queue),
    `atc_flights`, `atc_commands` and `arguments` (the ATC uplink menu and
    its argument fields).
  - Terminal client: `cli_state`, `pilot_session` and `atc_session` (what
    each session envelope does on the aircraft and ground sides),
    `atc_keys` (the ground station's keys).
  - GUI session messages: `gui_meta`.
  - Shared helpers: `text`, `numbers`.
- `tests/` — tests that run the compiled library.
- `app/` — what talks to the outside world: the Hoppie HTTP client, the
  OIDC code exchange, the bridge's command line, environment
  configuration, and the GUI's saved-station file.

Calls into `str::to_uppercase` and `str::to_lowercase` stand behind two
small trusted functions in `text`, and the `Display` texts of the
`reqwest` and `serde_json` errors behind two in `auth`; every other
function is proved.
