# text_to_cypher

Tooling to benchmark natural-language-to-Cypher generation: generating
datasets with a local model, scoring a generator against them with a judge
model, and browsing the scores in a terminal viewer.

`src/` is the verified library:

- `models` — dataset records.
- `generation` — drawing schemas, the question prompt, the log of generated
  triples.
- `scoring` — finding the judge's number (through `regex`), the prompts, the
  result file names and the retry stages of each entry.
- `ranking` — stable listing order of scores, percentile and median ranks,
  histogram bucket counts.
- `viewer` — tabs, scrolling and key handling of the viewer, the file-list
  window, score bars and name shortening.
- `walk` — what the file collector does with each directory entry.
- `dispatch` — the plan of the `Dispatch` derive.

`app/` is the program around it: command line, files, the model client, the
terminal UI and the floating-point statistics.
