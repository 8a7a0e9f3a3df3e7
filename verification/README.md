# yantrik_ui

The decisions of a desktop shell that minds can drive: who may do what without a person being
asked, what a person is shown before they answer, what the shell says of itself, and what happens
to the files, agents, recipes and jobs it looks after. Everything under `src/` is verified with
Verus: each function's contract pins down its result, and the laws that relate several functions
are public proof functions named `law_…` beside them.

Nothing in `src/` reads a clock, a file, a socket or the screen. The caller reads, hands over plain
values, and does what the answer says.

| module | what it decides |
| --- | --- |
| `approvals`, `control_approvals` | one question, one card, one grant that is spent once |
| `mind_mode` | the decision table of modes, grades, rules and the machine's ceiling; the audit log |
| `caller_identity` | which program is really on the other end of the socket |
| `control`, `control_*`, `surface` | what the shell describes, what it publishes, and what each action answers |
| `agents` | agents' names, their feed, how they are started, told and stopped, and what they may reach |
| `notifications`, `lens_history`, `markdown`, `trail` | what is listed and how it is drawn |
| `fileops`, `paths`, `config_store` | copying, moving, trashing and saving without losing anything |
| `harness_install`, `running`, `apps`, `lock`, `models`, `app_context` | jobs, launches, the catalogue, the lock, lists, start-up |
| `json`, `text`, `seqs`, `calendar`, `clock` | the vocabulary the others are phrased in |

`app/` does the reading and writing around the library: clocks, processes, files and locks.
