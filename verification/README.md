# vetterd

The approval daemon of vetter: it takes a request to run a command, lets it
through or denies it by the rules of the user, and asks a human about
everything else.

`src/` is the library, verified with Verus. It holds what is decided and
computed: parsing outcomes and policy (`connection`, `policy`), the queue of
requests that wait and the history (`pending`), rules and hosts that a user adds
(`suggestions`, `admin`), the audit log (`audit`), what a card shows (`cards`),
what notifications say and do (`notifier`), the popover and the window
(`runloop`), starting at login (`autostart`) and the small rules of the daemon
itself (`daemon`, `paths`, `socket`, `desktop_health`).

What only the outside can answer comes in as functions. Whether a file exists,
what the rules and the known hosts say and what a command parses to can change
from one call to the next: the contracts say which question each function was
asked and what the library makes of the answer it gave, whatever that was. How a
text is made safe to paint, and whether it is a loopback address on a card,
depend on the text alone: the contracts say what is shown for every such pair of
functions (`outside`).

`app/` is the program: sockets, files, the session bus, GTK and AppKit. It paints
what the library lowers and hands back what was clicked.

`tests/` runs the library on concrete values.
