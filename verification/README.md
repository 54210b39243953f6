# sponsorblock_mirror

A mirror of the SponsorBlock segment API: it answers `skipSegments` requests
from a local copy of the central database and falls back to the central
server when it has nothing.

`src/` is the library, written in Verus and proved:

- `request` — the request rules: hash prefixes are lower-cased and must be
  four hexadecimal digits, the `categories` parameter is a JSON list of
  strings (default `["sponsor"]`), and the fallback addresses.
- `skip` — which rows a search selects and how overlapping submissions are
  grouped: one group per hashed video id, one best (most voted) segment per
  cluster of overlapping submissions, segments answered in UUID order.
- `overlap` — when one segment overlaps another.
- `order`, `text`, `model` — ordering by UUID, text helpers, the row and
  segment types.
- `properties` — proved properties of the answer (every selected submission
  is answered, only what was asked for is answered, videos are not repeated).
- `cors`, `mirror` — the CORS rule and the job that re-imports the mirrored
  database dump.
- `outside` — the calls into `regex`, `serde_json` and `str::to_lowercase`,
  with the contracts they are trusted to meet.

`app/` is the Rocket server around it: routes, the PostgreSQL queries, the
`f32` arithmetic of overlap ratios, JSON output and the background import.
