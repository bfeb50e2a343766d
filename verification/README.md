# fetchmail

A small IMAP client (RFC 3501) with RFC 2045 header handling. It logs in,
selects a folder, runs one command and logs out:

    fetchmail -u USER -p PASSWORD [-f FOLDER] [-n NUMBER] COMMAND SERVER

where COMMAND is `retrieve` (print a message body), `parse` (print its
From, To, Date and Subject), `mime` (print the first plain-text UTF-8 part
of a multipart message) or `list` (print the subject of every message).

## Layout

- `src/` is the library, verified with Verus:
  - `text.rs`: character-sequence helpers (searches, decimal numbers, UTF-8
    byte offsets) and their specifications;
  - `lexicon/`: the IMAP and RFC 2045 data types with their models;
  - `parsing/`: the response and header parsers, each with a spec function
    that gives its meaning; the response grammar is that of RFC 3501,
    section 9 (forms the client does not use, such as flags and body
    structures, are reported as not handled);
  - `sanitisation.rs`: sending user text as IMAP literals;
  - `commands/`: what each command sends, when a response is complete, what
    is printed and with which exit code the program stops;
  - `laws.rs`: properties that span several functions (a literal is read
    back whole, a fetched body is read back whole, a tagged `NO` is a
    refusal, and others).
- `app/main.rs` is the program: the command line, the socket, reading and
  writing lines, printing and exiting.
- `tests/` runs the library on concrete values.
