# tg-s3-bot: operator tools

The operator tools of a Telegram-backed, S3-compatible storage gateway, with their decisions
verified by Verus:

- the in-chat administration commands (`/status`, `/keys`, `/rotate`, `/rekey`, `/backup`,
  `/restore`, `/set`), served to whitelisted users only;
- the consolidation of an object's chunks into fewer pieces of the usual size.

## Layout

- `src/` is the verified library. It does no I/O. Commands (`session`) and consolidations
  (`consolidate`) are state machines: each step takes what came of the last action and gives the
  next one. `chatbot` decides who is heeded and what is sent; `update` and `json` read Telegram's
  answers; `settings`, `status`, `keys`, `names` and `amount` make the texts; `text` holds what
  they share.
- `app/` performs the actions: HTTP, files, the command line. The gateway's database, storage and
  Telegram client come in through the trait `Gateway`.
- `tests/` runs the library.

## What is proved

Each function of the library states exactly what it returns. Beyond that, among others:

- nobody outside the whitelist is answered, no update is served twice, and every answer fits into a
  message;
- a value out of range is never stored, and a stored one is shown under every name of its setting;
- a rotated or reset credential is answered as it was stored;
- the pieces of a consolidated object hold the bytes of its chunks in order, old chunks are touched
  only once the new ones are in place, and a second consolidation changes nothing;
- every command comes to an end, and every consolidation into pieces that have a size.
