# russh

The server's side of an SSH session, verified with Verus: the channels of a
session and the data queued on them, the staging buffer, the hand-over of
packets to a writer task, key exchange and the installation of new keys, and
the supervision of a connection that does not make progress.

`src/` is the library. Every function in it has a contract that Verus proves.

- `channel`, `drain`, `session`: one channel's queue of data and control items,
  how it drains into packets, and the table of channels with its staging
  buffer. Their laws stand in `lane_laws` and `staging_laws`.
- `wire`, `msg`, `sshbuffer`: bytes, message numbers, clear packets.
- `common_session`: what both halves of a session share; new keys.
- `server`: the session as the server runs it.
  - `writer`, `writer_task`, `writer_drain`: the writer's queue, what it does
    with a command, and what it hands the socket. Laws: `writer_laws` of its
    steps, `writer_run` of whole runs.
  - `pipeline`, `parked`, `flush`, `install`, `schedule`: how packets move from
    the staging buffer to the writer, within a byte budget, and how a new key
    never overtakes a packet. A channel's turn lets out one data packet:
    `quantum_laws`. Data takes the backlog no further than the cap: `cap_laws`.
  - `sending`, `requests`, `dispatch`, `facade`: what the application can ask.
  - `delivery`, `inbound`, `reader`: what comes in, and window grants.
  - `run`, `supervisor`: the decisions of the session's loop, deadlines.
  - `ledger`, `keeping`: one ledger of everything on its way, and how the
    session keeps it. Laws: `ledger_laws`, `step_laws`.
  - `observe`, `published`, `gates`: what observers see.
  - `wholeness`: whether a session that was put together can be worked with.
  - `session_laws`, `backlog_laws`: what holds of a session whatever happens.
- `sm_feasibility`: the protocol's phases as small state machines.

What goes beyond Verus is in `app/`: tasks, sockets, clocks, ciphers and the
application's handler. It hands the library plain values and carries out what
the library decides. Time is in milliseconds since the connection began; keys
are numbers whose holder seals packets for the writer.

The functions of `bytes`, `byteorder` and `ssh-encoding` that the library calls
are wrapped in `wire`, each with the contract that the proofs rest on.

`tests/` runs the library on concrete values.
