semfilter
=========

`semfilter` filters semi-structured text by matching the typed tokens of each
input line against an expression, for example

    git tag | semfilter '$semanticVersion >= 0.2.0'
    netstat -nt | semfilter '$id == ESTABLISHED and ip($ipv4SocketAddress) in 193.32.160.0/24'

Layout
------

* `src/` is the library, verified with Verus:
  * `tokenizer` splits a line into separator characters and words;
  * `numbers`, `floats`, `dates`, `addresses`, `versions` and `values` read
    words as typed values and compare them;
  * `expression` is the expression grammar and its evaluation on the tokens
    of a line, and `composition` proves how `and`, `or` and parentheses
    combine what conditions select;
  * `validator` and `arguments` check the settings against the grammar;
  * `filter` decides, line by line, what is written and counts the lines;
  * `parser` reads token words as typed terms.
* `app/main.rs` is the command: argument parsing, reading and writing lines,
  and reading words as `f64` (floating point is not modelled by the library,
  which takes doubles as their bits).
* `tests/` holds the tests.
