# jvm

A small Java virtual machine: a class file decoder, a class loader, an
interpreter for the integer, reference and array instructions, a heap with
a generational mark-and-sweep collector, and the preparation of calls to
native functions.

## Layout

- `src/` is the library, written and proved with Verus. Every function has a
  contract; the main ones:
  - `class_file_reader`: `ClassFileReader::parse` decodes a class file; it
    succeeds exactly when the bytes begin with a class file as
    `class_format::class_file_at` lays it out, and what it gives is laid out
    there.
  - `class_load`: loading a class is a sequence of requests for class files
    (`ClassLoader::begin_load`, `ClassLoader::continue_load`); superclasses and
    interfaces come first, circular chains and malformed files are refused
    with the errors the contracts name.
  - `execute*`: `Frame::execute_instruction` runs one instruction;
    `frame_effect` and `object_effect` in `execute` state what it does to the
    frame, the heap and the class table.
  - `vm`: `VM::step` runs the current method one instruction further and says
    what the host has to do (load a class, compute a floating-point
    instruction, call a native function). A thrown exception unwinds the
    frames down to the first whose handler catches its class or one of its
    superclasses.
  - `heap`, `allocation`, `garbage_collector`: allocation, and collections
    that free exactly the objects that no root reaches; every free slot is
    on the free list, and an allocation fails only when, after a minor and
    a major collection, every slot holds a reachable object.
  - `native`: `prepare_native_call` checks and converts the arguments of the
    known native functions.
  - `laws`: properties that relate several operations (a store then a load, a
    field write then a read, a call then its return, ...).
- `tests/` runs small programs built as class file bytes, and unit cases.
- `app/` is the host program: command line, reading class files from
  directories and jar files, floating-point arithmetic, calls into native
  libraries, and the viewer that streams the machine's state.
