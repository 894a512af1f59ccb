# talksage

The logic of the TalkSage meeting assistant as a Verus library: every
function in `src/` carries a `requires`/`ensures` contract that Verus proves.

## Layout

- `src/` — the verified library, one module per concern:
  - text and configuration: `text`, `sorted_map`, `config`, `settings` (the
    settings page's updates and the settings file over the defaults), `scene`, `cli`,
    `corpus`, `media`
  - transcription: `clock`, `transcript`, `asr`, `models`, `punct`, `pool`,
    `nls` (the Aliyun realtime session as a state machine), `token`
    (request signing), `wav`, `trim`
  - analysis: `key_points`, `metrics`, `quality`, `knowledge`, `llm`,
    `notes`, `webhook`
- `tests/` — tests of the library on concrete values.
- `app/` — the `talksage` command line and everything the library does not
  hold: file and network I/O, configuration files, floating-point scores,
  and the WebSocket task that performs what `nls::NlsSession` decides.

Calls into outside crates (`serde_json`, `base64`, `hmac`/`sha1`, `uuid`)
go through small trusted wrappers whose contracts state what the crate
documents; each has a doc comment saying what is assumed.
