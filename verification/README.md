# asn_worker

A Cloudflare worker that crawls listings of Chinese autonomous systems,
recognises the ISP behind each network, stores the rows in a D1 table and
serves them at `/api/asns` through a key-value cache.

- `src/` is the library, verified with Verus: page extraction and ISP
  recognition (`crawler`), the rows (`model`, `isp`), the steps of a cached
  read (`cache`), the planning of upserts and deletions (`upsert`), the D1
  statements (`d1`), and the HTTP answers (`response`, `error`, `log`).
- `app/` is the worker around it: the fetch and scheduled events, axum
  routes, KV and D1 access, HTTP fetching, and the sea-orm entity.
- `tests/` runs the library on concrete pages and values.

Where the worker keys rows by AS number, the library keeps them in vectors
merged by number, in the order numbers first occur; the ISP patterns are
tried in a fixed rank order (CT, CMCC, CU, CERNET, CSTNET, CAICT).
