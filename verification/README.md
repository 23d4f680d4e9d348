# gpu

The logic of a GPU page renderer: a parallel baseline JPEG decoder, path
fills, image blits, compositing, CMYK conversion, a host-memory image cache,
and the parameters, launches and set-up of two GPU back ends (CUDA and Vulkan).
Everything that decides or computes is in `src/` and proved with Verus; what
talks to a device is in `app/`.

## Layout

| Where | What |
| --- | --- |
| `src/bits.rs`, `src/text.rs` | Bit strings and message texts that the other contracts speak of |
| `src/jpeg/` | Header parser, byte unstuffing, code tables, bit reader, DC chain |
| `src/jpeg_decoder/` | Prepared input, symbol walkers, the phases of the parallel Huffman decode, coefficients, and the runs that drive a device through them |
| `src/backend/` | Launch parameters and their validation, kernels, recorder, resource set-up, memory budget, shader words |
| `src/cuda.rs` | Initialisation of a CUDA context, step by step |
| `src/blit.rs`, `src/composite.rs`, `src/cmyk.rs`, `src/clut.rs`, `src/fill.rs`, `src/coverage.rs` | Pixel work |
| `src/cache/` | Page buffers and the host tier of the image cache |
| `app/` | Devices, drivers and floating point around the library |
| `tests/` | Tests of the compiled library; `device.rs` runs the decoder on a device in host memory |

A run (`HuffmanRun`, `IdctRun`) never calls a device.  It says what to do next,
takes the device's reply, and ends with a result; `app/` performs the actions.

## What is proved

Each executable function states its result.  Where something else decides (the
machine's byte order, which of two equally old cache entries leaves, the order
of records with equal keys), the contract says what holds either way.  Beside
the functions stand the laws, public proof functions named `law_…`.  The central ones:

* Unstuffing inverts stuffing, and packing into words keeps every bit.
* Canonical codes are prefix-free, and the look-up finds each code.
* The regions of a stream, decoded in parallel, hold symbols that begin with
  the scan's symbol stream whatever their size, as long as the bytes behind the
  scan run into no AC overflow.  They hold nothing else where the last byte is
  filled with ones and no DC code consists of ones alone
  (`jpeg_decoder/scan_walk_laws.rs`).  A run on a device whose kernels do what
  they are documented to do then ends with exactly these symbols
  (`jpeg_decoder/kernel_laws.rs`).
* Symbols that were encoded into a synthetic stream come back where the regions
  are in step (`jpeg_decoder/plain_laws.rs`).
* Coefficients assembled from symbols are those decoded directly.
* A run keeps its buffers in order, ends, and frees what it allocated whatever
  the device replies.
* The host tier stays within its budget unless transfers are using entries, and
  drops an entry that is larger than the budget.  No entry leaves while a new
  one fits beside all of them.

Calls into other crates (`ash`, `bytemuck`, `dashmap`) and one sort of the
standard library are taken on trust; each such item says what it takes for
granted.
