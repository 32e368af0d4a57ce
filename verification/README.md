# tui_suite

The verified logic of three terminal programs, written in Verus:

* an awesome-list browser (`readme`, `awesome`): which links the readme
  lists, the case-insensitive search over them, and what each key does;
* a category browser over a JSON catalogue (`data`, `search`, `ui`);
* a task manager (`app`, `config`, `db`, `dialog`, `layout`): fuzzy search,
  stable sorting in five orders, the editing modes, the task dialog, and
  where a pop-up is placed.

`src/` is the library, every function verified; `text` holds the string
helpers it shares. `app/` holds the programs around it: terminal drawing,
key events, HTTP, the browser, SQLite and the JSON files. `tests/` runs the
library on concrete values.

The category browser's search (`search`) uses its own matching rule:
`search::search` reports where a term first occurs in a text, and a
category, subcategory or link is a hit when the term occurs in its title.
The rule is stated as a spec function and proved of the code; it makes no
claim about any other fuzzy-matching library. `Category` carries
`direct_links`, the links filed directly under a category, which the search
reads as well; a catalogue without them reads with an empty list.
