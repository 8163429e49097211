# yingdraft

Verified core of a toolkit that turns media bundles and Alibaba Cloud VOD
timelines into Jianying (CapCut) drafts.

- `src/` — the library, verified with Verus: subtitle and concat parsing,
  bundle path checks, stitching and narration layout, multitrack and VOD
  timeline planning, media classification from `ffprobe` reports, URL and
  file-name rules for downloads, draft content (`draft_json`), and the
  messages of every error.
- `tests/` — tests of the library.
- `app/` — the `jy` command line: reads bundles and manifests, runs
  `ffprobe`, prints results, and writes `draft_content.json` from a project.
