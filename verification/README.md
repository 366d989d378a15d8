# playlist_processor

The processing core of a playlist filter, verified with Verus. Playlists come from inputs, and
targets are made from them: filtered, renamed and mapped in a configurable order, affixed, merged
and sorted. Which inputs are fetched, which targets are made, and what is written where is decided
here too, step by step; the fetching and the writing itself are up to the caller.

| Module | What it holds |
| --- | --- |
| `config`, `playlist`, `error` | the configuration, playlists and their views, errors |
| `pattern`, `transliterate` | regular expressions and ASCII transliteration: the calls into `regex` and `unidecode` |
| `text`, `stable_sort`, `selection` | texts, stable sorting, and going through a selection |
| `filter`, `rename`, `mapping`, `regroup` | the stages of the processing |
| `pipe` | the order of the stages |
| `affix`, `sort` | affixes of inputs, and the order of groups and channels |
| `stats` | sizes of playlists, per input |
| `target` | making the playlist of a target |
| `persist` | what is written to the outputs of a target |
| `source` | which inputs are fetched, what is kept of them, which targets are made |
| `schedule` | how sources are spread over threads |
| `report` | the messages sent after a run |

Every public function states in its `ensures` what it returns or changes, over the views of its
arguments. The public proof functions beside them state what holds of several of them together.
What is taken on trust is in `pattern` and `transliterate` alone.

`app/` runs the library: it has the async code, the threads and the logging, and a trait for the
downloads, the repositories and the messaging of the program around it.
