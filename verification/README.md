# DahuangDog (大黄狗)

A Windows watchdog: it samples CPU, memory, disks, network and processes,
confirms sustained anomalies, explains them, and acts on a process only after
an explicit, short-lived confirmation.

The decisions live in a library verified with Verus (`src/`); the program
around it (`app/`) reads the machine, talks to Windows, SQLite and the
MiniMax service, and prints JSON.

## Layout

- `src/` — the verified library
  - `text` — character-level string helpers with `Seq<char>` specifications
  - `ai` — API-key normalisation, credential records, reply shaping
  - `process`, `grouping` — process samples, critical names, application groups
  - `baseline`, `detector`, `health`, `notify` — anomaly detection, findings,
    timeline, disk pressure, health score, local diagnosis, notifications
  - `actions`, `keyed` — previews, single-use confirmation, verification
  - `lifecycle` — application sessions and foreground time
  - `network` — per-process byte counters and the trace collector's state
  - `security` — program and startup-entry ratings, the security report
  - `storage_scan`, `order` — the disk-usage tree, ordering by size
  - `maintenance` — cleanup candidates, cleanup and startup changes
  - `settings`, `usage`, `types`, `ids` — settings, history windows and
    averages, usage summaries, shared data
- `tests/` — tests of the library
- `app/` — the command-line program

## Running

```
dahuang                 # patrol loop, one JSON status per round
dahuang history         # the latest snapshots with baselines and peaks
dahuang trend 60        # snapshots of the last N minutes, bucketed
dahuang usage 7         # application usage over the last N days
dahuang sessions        # recent application sessions
dahuang security        # security report
dahuang disabled-startups                 # startup entries this program disabled
dahuang storage C:\     # disk usage tree
dahuang cleanup         # cleanup candidates
dahuang clean FILE...   # prepare, confirm and carry out a cleanup
dahuang diagnose        # local diagnosis
dahuang ai              # MiniMax diagnosis
dahuang set-key KEY     # store the MiniMax key in the credential manager
dahuang clear-key       # remove it
dahuang key-status      # whether a key is stored
dahuang test-ai KEY     # MiniMax connection test
dahuang terminate PID STARTED_AT          # preview, confirm with y within 30 s, end it, observe 15 s
dahuang priority PID STARTED_AT LEVEL     # preview, confirm with y within 30 s, change its priority
dahuang locate PID STARTED_AT             # show its executable in Explorer
dahuang settings [JSON] # show, or check and store, the settings (the patrol applies them next round)
dahuang clear-memory    # forget the stored history and events
```
