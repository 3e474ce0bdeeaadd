# pycom_wrap

A language server for Python sources whose core is verified with Verus.

- `src/` is the verified library:
  - `text_size`, `text_range`: byte offsets and ranges into a source text;
  - `lex_spec`, `lex`, `lex_laws`, `token`, `unicode`, `int_parse`, `string_parsing`: the
    lexer, first as functions of its state, then as executable code proved against them,
    with the invariants every lexing step keeps;
  - `rpc`, `scanner`: the JSON-RPC framing (`Content-Length` header, delimiter, content)
    and the decisions of the loop that reads messages;
  - `request`, `notification`, `response`, `request_handling`, `request_handler`: the
    protocol messages and the request handler's state machine;
  - `comment_wrapper`: character offsets and comment text.
- `app/` is the program around it: reading standard input, JSON with serde, logging,
  writing answers, and the floating-point values of number literals.
- `tests/` runs the library on concrete inputs.
