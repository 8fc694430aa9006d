# Modbus Workbench

A workbench for Modbus: a master for TCP, UDP and serial lines, and a simulated slave with
several units whose registers can be edited, imported, exported and made to vary.

`src/` is the library. It holds the codecs, the data image and its request handler, the
decisions of master and slave, the register registry and the simulator. Verus proves the
contracts of its functions. Taken on trust are the calls of the xlsx writer, of the clock,
the hasher and a few text functions of the standard library; what the clock reads is left
open. `app/` is the desktop application: sockets, serial ports,
files, floating point and windows. `tests/` runs the library on concrete values.

| Module | What it holds |
| --- | --- |
| `wire`, `text`, `number`, `hex` | words and bits, texts, numbers, hexadecimal |
| `crc`, `framing` | CRC-16, MBAP and RTU frames |
| `function_code`, `error` | codes and their names |
| `data` | word orders and display formats |
| `slave` | the data image and its request handler |
| `server` | what a slave answers over each framing |
| `transport`, `client` | what a master sends and makes of the answers |
| `exchange` | master and slave put together |
| `simulator`, `vary` | registers that vary by themselves |
| `simreg`, `registry`, `state` | register definitions, the registry, the units |
| `sheet` | the exported workbook |
| `slave_control`, `poll`, `commands`, `workspace` | running modes, polls, single commands, workspace files |
