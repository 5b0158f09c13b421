# perl_wrapper

A verified wrapper around a Perl interpreter and the environment used to build and
install CPAN distributions with it.

`Perl` records the full path to `perl`, the full path to `make` (or `None`), an optional
module install location, and a list of directories for `PERL5LIB`. `execute_perl` and
`execute_make` describe how to run those executables with the build environment applied
(`PERL`, `MAKE`, `PERL5LIB`, `PERL_LOCAL_LIB_ROOT`, `PERL_MB_OPT`, `PERL_MM_OPT`, and
`PERLLIB` cleared), optionally capturing the child's merged stdout and stderr. `inc` and
`archname` read what the interpreter reports of itself and keep it. `module` finds the
file of an installed module and the version that its source declares, without running it.

## Layout

- `src/` is the library, verified with Verus. It decides and computes; what has to be run
  or read it hands out as plain values and takes the outcome back.
  - `perl` holds the configuration, the build environment and the query of the
    interpreter; `command` and `execute` hold commands and their step-by-step execution.
  - `interpreter` reads the report of the interpreter.
  - `module_name`, `search` and `version` find a module, step by step, and its version.
  - `path` and `text` hold the vocabulary of paths and text that the others use.
  - `outside` lists everything that is taken on trust.
- `app/` performs what the library decides, with processes, pipes and files.
- `tests/` runs the library on concrete values.

The names of public proof functions that state a property of the library as a whole start
with `law_`.

Paths are Unix paths: bytes, with `/` between names. They need not be valid UTF-8.
