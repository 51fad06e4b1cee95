# mssh

A shell over mail. Mails that come to a mailbox are read as input for sessions, such as a shell on
a terminal, a program or an echo, and what the sessions write is sent back as answers. Mails can be
encrypted and signed with OpenPGP in both directions.

The subject of a mail has three parts with `/` between them. The middle part names the session
(`#name`), its type (`term`, `subs`, `echo`) and its arguments, as in `hello/#work subs ls -l/`. A
mail that names no session begins one. Mails to the session `MAIN` hold commands to the dispatcher
itself, one to each paragraph: `#MAIN info`, `#MAIN kill <name>`, `#MAIN killself`.

`src/` is the library, verified with Verus:

| module | what it holds |
| --- | --- |
| `subject`, `common` | what a mail says of its session, answers, and how they are written |
| `dispatcher` | which session a mail goes to, and the commands to the dispatcher |
| `echo`, `subsystem`, `terminal` | the sessions |
| `security_layer`, `opengpg_utils` | which mails are opened and sealed, with which keys |
| `jmap_requests`, `jmap_transport` | what the mail server is asked, and what is made of its answers |
| `text`, `registry` | texts as sequences of characters, and values by name |
| `mail`, `post`, `pgp`, `json`, `octets`, `chance` | calls of other crates, with the contracts that the proofs rest on |

`app/` is the program around it: configuration, HTTP, processes and terminals. `tests/` runs the
library with the crates it calls.
