# chord

A Discord bot that creates categories and channels in a guild from a CLI-like
command, such as

    -cat my category -p -r admin, member -ch general -ch memes -t voice

This crate is written in Verus. The library in `src/` holds the bot's logic,
each function with a contract that Verus proves:

- `text`: characters, trimming, searching, splitting and removing substrings;
  `text_facts`: what these operations make of texts of a known shape.
- `parse`: the flag parser (`parse_input`), the channels a command text
  describes (`parse_to_channel`), its description for the reply
  (`parse_to_text`), and channels written back as a command (`text_from_channels`).
  `parse::reparse` proves that such a written command creates the same channels
  again (name, kind, privacy and category name; roles are not written), for
  channel and category names that read back as themselves.
- `parser`: the map-style parser, in which channels are separated by ` | `, or
  turned directly into channel records.
- `bot`: channel and category records, the per-user stores of pending channels
  and permission setups, and the event handler's decisions.
- `commands`: registration and replies of the slash commands (the `/check_setup`
  listing among them), the answers of
  `/setup`, and the permission plan of an accepted `/create`.
- `utility`: channel-name polishing, the `/setup` permission list, buttons and
  Discord permission bits.

`app/` is the bot itself: it connects through serenity and shuttle, waits for
clicks, creates channels, and asks the library what to do.
