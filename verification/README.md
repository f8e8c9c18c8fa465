# contribai

Turns findings about a repository into code contributions with the help of a
language model: it writes the prompts, reads the changes out of the replies,
applies search/replace edits, checks the result, and names the commit, the
branch and the pull request.

The library in `src/` is written in Verus. Every executable function states in
its contract what it returns; texts are specified as sequences of characters.

| Module | What it holds |
| --- | --- |
| `chars`, `text` | the vocabulary of texts, and the same operations at run time |
| `case`, `patterns`, `outside` | case mapping, regular expressions, and the calls into other crates, which are trusted |
| `models`, `guidelines`, `json` | the data |
| `extract`, `changes` | from a reply to the changes that it asks for |
| `overlap`, `edits` | search/replace edits, exact and fuzzy |
| `brackets`, `validate` | telling sound changes from broken ones |
| `cross_files` | other files with the same issue |
| `naming`, `prompts`, `review` | the texts that go out |
| `generator`, `pipeline` | the steps from a finding to a contribution |

The pipeline does no input or output: each step takes what happened and says
what to do next. `app/` drives it with an asynchronous language model.

Functions named `law_*` prove what holds of the library as a whole.
