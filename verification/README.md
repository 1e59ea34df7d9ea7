# BetWall

BetWall keeps gambling sites shut on Windows. It sits in the tray, reads the
address bars of the open browsers and closes a tab whose address matches a
blocked pattern. A control panel on a local port turns blocks on freely; turning
one off, pausing, quitting and updating take a one-time code.

`src/` is a library verified with Verus. It decides everything that the program
does:

| Module | What it holds |
|---|---|
| `config` | casinos, games, the patterns in force, slugs, where the file lies |
| `edit` | switches from a form, what weakens the protection, adding, removing |
| `totp` | secrets, six-digit codes, checking a code, the provisioning address |
| `http`, `form`, `percent` | requests read line by line, form fields, answers |
| `html`, `templates` | the pages |
| `server` | what each request changes and how it is answered |
| `monitor` | which windows to read, what matches, when to close a tab |
| `updater` | when to look for releases, which to report, installing |
| `install`, `autostart`, `paths`, `tray` | folders, start-up entries, the tray |
| `text`, `unicode` | operations on characters |
| `guarantees`, `defaults`, `shown` | what holds of all of this together |

The theorem to read first is
`guarantees::lemma_nothing_weaker_until_a_code_comes`: starting from a sound
configuration, such as a new one, nothing that comes over any number of
connections without a right code pauses the program or opens an address that was
shut. It asks one thing of the games that are added on the way: the pattern of
each, in lower case, still holds the domain of its casino in lower case. Where
the domains and the address that was typed in are ASCII, as the domains of a new
configuration are, this is proved (`lemma_ascii_adds_below_casino`); outside
ASCII it rests on how letters are lower-cased and is a condition of the theorem.

What the library takes on trust stands in doc comments next to each call of an
outside function: HMAC-SHA1, Base32, random bytes, the clock, version
comparison, the drawing of QR codes, and the folders of the system.

`app/` is the program around the library: sockets, files, the registry, UI
Automation and the tray icon. `tests/` runs the library on concrete values.
