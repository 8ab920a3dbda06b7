# finalyst

A market news analyser: it reads RSS and Atom feeds, picks the newest entries
that it has not analysed before, and asks a language model, which may call a
finance-indicator tool and a submit tool, what each entry means for stock
prices.

- `src/` is the Verus-verified library: reading feed documents into entries
  (`rss`), choosing and ordering the entries and building prompts (`model`),
  checking the dates of finance requests (`finance`, `fetcher`), the submit
  tool's action vocabulary and buffer (`extractor`), and small command-line,
  configuration and progress-display decisions (`cli`, `config`, `utils`).
- `app/` is the program around it: command-line parsing, configuration files,
  HTTP, the entry database, the language-model agent and its tools, and the
  floating-point indicator summaries.
- `tests/` exercises the library on concrete inputs.
