# MimicWX

A service that automates the WeChat desktop program on Linux: it reads new
messages from the program's encrypted databases, sends texts and pictures
through the program's windows, and offers both over HTTP and WebSocket.

## Layout

- `src/` is the library. It holds every rule of the service as verified Verus
  code: how tables and rows are read, what counts as new, how message contents
  are parsed, how the configuration is rewritten, who may call which endpoint,
  what the console understands, and in which steps chats are found, entered and
  written to. It does no input or output. Where the outside world must be asked
  (a database, the accessibility tree, a window), the library asks one question
  at a time and decides what follows from the answer.
- `src/outside.rs` holds everything that is taken from other crates. The
  contracts there are believed, not proved.
- `tests/` runs the library on concrete values, with the real outside crates.
- `app/` is the service around the library: files, databases, sockets, the
  terminal and the web server. The desktop itself (accessibility tree, keyboard,
  mouse, windows of single chats) is reached over a local socket.

## Laws

Properties that span several functions are public proof functions whose names
begin with `law_`, each next to the functions that it speaks of. Some of them:

- no message is delivered twice (`poll::law_no_message_twice`) and none is lost
  (`delivery::law_no_message_lost`), and databases that have not changed give
  nothing more (`delivery::law_next_call_finds_nothing`);
- a rewritten configuration keeps all lines that it does not replace
  (`config::law_only_the_entry_changes`);
- only the status is open to those without the token
  (`auth::law_only_status_is_open`);
- a chat has a window of its own once opening it ended well, and none where no
  window came up (`flows::law_added_is_listed`);
- nothing is pasted before the right chat is entered
  (`flows::law_no_paste_before_chat`), and every flow ends
  (`flows::law_flows_end`).
