# reuse

A verified analyzer that inserts reference counting and memory reuse into
programs of small functional intermediate languages, checked with Verus.

## Languages

- `ir::l1_ir`: the source-level language (expressions, statements, blocks).
- `l2_ir`: the first A-normal form, in which bodies bind patterns and reference
  counting is explicit.
- `ir::l2_ir`: the A-normal form in which every variable is used either by
  consuming it or by borrowing it.
- `ir::l3_ir`: the linear language, with explicit `dup`, `drop` and
  `drop-reuse`, and its textual form (`ir::l3_ir::display`).
- `ir::common`, `types`: patterns and types shared by the languages.

## Passes

- `pass::l2::use_check`: which variables are consumed and which only borrowed.
- `pass::l2tol3`: makes ownership explicit, duplicating a linear variable that
  is read again.
- `pass::l3::insert_drop_reuse`: releases owned variables where they stop being
  read, reusing the memory of a dead value for a constructor of the same type.
- `pass::l2::{insert_reuse_from_liveness, process_match, rewrite_construct}`:
  the same analysis on `l2_ir`, driven by liveness and by a scope of types.

Each pass is specified by a spec function over a mathematical model of the
program.  The laws that relate the passes are proof functions whose names
start with `law_`: a pass only adds reference counting and reuse annotations,
it never adds a read, it drops only variables that are not read after (where no
match arm rebinds a variable that may be owned there), and the usage record
reads back what was recorded.  Further laws state each pass case by case: what
it keeps, what it makes live, and which counts it changes.

## Layout

`src/` is the library, `tests/` its tests.  `names.rs` models sets of names
and association lists, `utils.rs` scopes of bindings.
