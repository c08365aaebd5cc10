# xmppd

A small XMPP server whose decisions are verified with Verus.

- `src/` is the library: stanza parsing (`iq_parser`, `stanza_parser`, over the
  text model in `text`), SASL PLAIN login (`auth`, `account_storer`), resource
  binding, `<iq>`, `<message>` and `<presence>` routing, the in-memory session
  registry (`session_manager`, on the verified `name_map`), and the per-phase
  decisions of a connection (`stream`). Every public function there carries a contract
  over spec models of the text it reads; the laws of the library are the
  `law_*` proof functions.
- `app/main.rs` is the server: it listens on 127.0.0.1:5222, reads the accounts
  from `data/login.json`, and runs each connection through the library's
  `login_step`, `bind_step` and `dispatch_stanza`. A message to another
  bound user's full address (`user@localhost/resource`) waits in that
  session in the registry until its connection takes it and writes it out.
- `tests/` exercises the library on concrete stanzas.
