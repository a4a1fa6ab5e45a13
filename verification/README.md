# quickpython

A small Python interpreter: a compiler from a Python syntax tree to a flat
stack bytecode, a binary `.pyq` format for that bytecode, and a virtual
machine that runs it.

## Layout

- `src/` is the library, verified with Verus:
  - `ast.rs`: the syntax tree the compiler reads.
  - `bytecode.rs`: the instruction set, and its mathematical view `Instr`.
  - `codegen.rs`: code templates with holes for jumps whose target is laid
    out later (`break`, the exits of `try` clauses, comprehension filters).
  - `parse.rs`: the call into `rustpython-parser`, whose result is named
    and handed over as the library's syntax tree.
  - `compiler.rs`: the compiler. `Compiler::compile_program` returns exactly
    the code that the spec function `program_code` gives for the program, or
    the error message it gives; `Compiler::compile` parses source text first.
  - `jumps.rs`, `frames.rs`: two facts about every compiled program: no
    `Break` or `Continue` instruction is emitted, and every jump lands inside
    the block (program or function body) that holds it.
  - `serializer.rs`: the `.pyq` format; decoding what was encoded gives the
    bytecode back.
  - `strings.rs`, `slice.rs`: the string operations and the slicing rules of the
    interpreter.
  - `value.rs`: exception types and their hierarchy, dict keys, lists with a
    version counter for safe iteration.
  - `extension.rs`: the registry of extension modules.
  - `re.rs`: the `re` module over the `regex` crate; `args.rs`: the argument
    checks of the `os`, `os.path` and `json` modules; `llm.rs`: the `llm`
    extension module's checks, request and reply.
  - `json.rs`: `json.loads` over `serde_json`, into a plain JSON tree.
  - `machine.rs`: the control core of the virtual machine: value stack,
    call frames and handler blocks, which instruction runs next, the control
    instructions (jumps, conditional jumps, locals, blocks, calls and
    returns), and unwinding a raised exception to its handler.
  - `methods.rs`: the string methods scripts call, with their argument
    checks; `iteration.rs`: `range` iterators and list iteration that
    notices modification; `blocks.rs`: entering, leaving and unwinding
    `try`/`finally` regions; `calls.rs`: taking call arguments off the stack
    and checking their number; `objects.rs`: the methods of lists and match
    objects; `numbers.rs`: `int(...)` of a string and the text of an
    integer; `arith.rs`: integer arithmetic and string ordering;
    `display.rs`: the text that `print` writes for a value.
  - `builtins.rs`, `text.rs`: the names of the built-in modules and where an
    import comes from; byte and text helpers.
- `app/` is the program around the library: the run-time values and the
  instructions that look inside them, the file system and network
  calls of the `os` and `llm` modules, `json.dumps`, the `asyncio` module, and
  the command line.
- `tests/` runs the library on concrete programs and values.
