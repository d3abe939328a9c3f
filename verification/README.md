# STB-Core (verified)

Structural Generative Transmission: instead of raw data, a sender transmits a
small program of generative instructions, guarded by a SHA-256 capsid, that a
virtual machine replays against a shared gene library.

The library in `src/` is written and proved with Verus:

| Module | Contents |
|--------|----------|
| `compiler` | instruction trees, opcodes, and the compiler to bytecode (`compile_spec`) |
| `machine` | the machine state and the semantics of one instruction and of a run (`step`, `run`), with the termination measure |
| `vm` | the executable machine, proved to follow `run` |
| `semantics` | the meaning of an instruction tree (`eval`) and the proof that running its bytecode agrees with it |
| `gene` | genes, the gene library, storing and reloading it |
| `capsid` | the capsid and `transmit` |
| `residual` | zstd compression of the residue |
| `purification` | segment classes and byte statistics |
| `laws` | properties of the library as a whole |
| `assoc`, `bytes`, `text`, `digest`, `error` | supporting pieces |

`app/` holds what is not verified: the floating-point scores (purification,
gene fitness, compression metrics), reading and writing a library file with
bincode, and a small demonstration.
