# SlothForge

A local server for language models: it finds GGUF models on disk, downloads them from Hugging Face,
keeps the history of chats and the settings of the interface, and follows runs of training and the
nodes of a small cluster.

The logic stands in `src/`, a library verified with Verus. Its functions state in `requires` and
`ensures` what they take and what they return or change, over mathematical views of the data.

| modules of `src/` | what they hold |
| --- | --- |
| `gguf`, `gguf_written`, `ggml`, `inventory`, `messages` | the GGUF format: parsing, what a written file is read as, tensor sizes, what a header tells |
| `tokenizer`, `dataset`, `dataset_laws` | tokens, and training data packed into windows |
| `lora`, `cluster`, `cluster_api`, `cluster_answers` | layers of an adapter, gradients on the wire, nodes of a cluster |
| `names`, `hub`, `hub_tree`, `gguf_variants`, `model_scan`, `model_laws`, `models`, `local_files` | models on disk and in repositories |
| `downloads`, `download_jobs`, `download_answers`, `hf_api` | downloads: plans, jobs, progress, resumption |
| `chat_store`, `chat_ops`, `chat_forks`, `chat_lists`, `chat_api`, `chat_laws` | threads, messages, projects |
| `settings_store`, `settings_api`, `settings_answers`, `settings_laws`, `scan_folders`, `run_store` | what is kept between runs of the server |
| `training`, `training_session`, `profile_facts`, `profile_stats`, `profile_answers` | runs of training and statistics |
| `security`, `paths`, `deletion`, `browse` | which requests and which paths are let in |
| `server`, `telemetry`, `inference`, `model_answers`, `answers`, `error` | answers of the server |
| `json`, `text`, `order`, `calendar`, `decimals` | values, characters, sorting, dates, decimal numbers |

Floating-point numbers are kept by their bits: the library moves and compares them, and never
computes with them.

`app/` is the program around the library: HTTP with axum, the SQLite file, the file system, requests
to Hugging Face, and the computations on floating-point numbers. `tests/` runs the library.
