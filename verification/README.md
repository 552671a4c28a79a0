# Hugh

Hugh is a single-server Discord security bot. It deletes and times out
mass-mention, staff-ping, flood, repeat and invite-link abuse, detects join
raids, strips protected roles from members who are not on the allowlist, and
quarantines members reversibly with a durable journal of their roles.

The policy is a library verified with Verus; the Discord client around it is
ordinary Rust.

## Layout

- `src/` is the verified library: the detectors, the rolling state, the
  journal and the decisions of each command, each with a `requires`/`ensures`
  contract over spec functions and views.
  - `text.rs`: trimming by the Unicode `White_Space` property, lower-casing.
  - `ids.rs`: decimal Discord IDs, parsed and formatted.
  - `config.rs`: the policy, its defaults and its validation rules.
  - `detection.rs`: stateless detectors (invite links, the role allowlist).
  - `state.rs`: per-user rolling windows, duplicate buckets, raid mode, and
    the eviction of inactive users.
  - `permissions.rs`: Discord permission bits and channel overwrites.
  - `quarantine.rs`: the role-snapshot journal, role removal and restoration,
    and the choice of the quarantine role and channel.
  - `moderation.rs`: what to do about a message, a join or a member update.
  - `commands.rs`: slash-command permissions, refusals and replies.
- `tests/` runs the library on concrete cases.
- `app/` is the bot: configuration loading, the gateway event handler, the
  slash commands, the incident log and webhook, and the journal file. It asks
  the library what to do and performs it. The order of the banish and
  unbanish calls, the settling and caching of the quarantine role and
  channel, the message-guard incident record and the action names of every
  incident are decided in `src/`; `app/` performs the calls, reads and writes
  the files, and turns values into JSON.

The laws the library keeps are public proof functions next to the code they
describe: for example that a parsed formatted ID is the ID, that replaying a
journal of snapshot and release lines rebuilds the records they describe,
that an unbanish gives back the roles a banish took, and how the join count
and raid mode follow from a history of joins.

## Trusted code

Two standard-library calls are taken on trust: `String::push`, specified
exactly, and `str::to_lowercase`, whose result is only named: the contracts
speak of `lowercase(..)` without saying what it is. ASCII text is lowered by
the verified ASCII mapping, so for it the repeat key is fully specified.

Repeated messages are bucketed by `std`'s `DefaultHasher`, through the
specification that vstd gives it: equal texts hash equally, and the hash value
itself is left unspecified.
