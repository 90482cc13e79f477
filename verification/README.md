# presence_organs

The organs of the Presence runtime — small programs that the agent calls as
tools, senses, stimuli, reflexes and actions — with their logic written in
Verus and proved against its contracts.

## Layout

- `src/` — the verified library, one module per concern:
  - `sdk`, `response`, `cli`, `dict`, `text`, `ids`: the `--key value`
    argument convention, the JSON response every organ prints, the shared
    command-line dispatch, and string helpers; `jsonl`: the lines of a
    log that parse as JSON.
  - `agent_card`, `state`: agent cards (frontmatter parsing and rewriting),
    snapshots and the pause protocol.
  - `acp`, `channel`: the Agent Client Protocol gateway as a state machine,
    and the file channel and its bridge.
  - `issues`, `mood`, `memory`, `manual`, `ask`, `io`, `shell`, `packager`,
    `social`, `vox`, `vitals`, `winsense`, `dashboard`: the rules of each
    organ.
- `tests/` — tests of the library on concrete values.
- `app/` — the command-line program around the library: reading and writing
  files, running commands, the clock and the environment, and JSON on the
  wire. `presence-organs <organ> [args...]` runs one organ.

## What is proved

Every public function states what it returns in its `ensures`. Laws that
relate several functions stand as public proof functions, among them: an
updated agent card reads back the mode and the state values written
(`agent_card::lemma_mode_reads_back`, `agent_card::lemma_state_reads_back`)
and keeps its opening `---` on a line of its own
(`agent_card::lemma_opening_line_alone`),
a pause leaves the card at rest (`state::lemma_pause_rests`), an issue file
reads back its title and category (`issues::lemma_issue_read_back`), and the
gateway keeps a forced profile and refuses unknown methods
(`acp::lemma_forced_profile_stays`, `acp::lemma_unknown_method_refused`), and
over any sequence of input lines its profile is the one detected at the last
`initialize` request unless forced (`acp::lemma_profile_over_messages`).
