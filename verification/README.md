# Schedule Manager

A personal calendar with Chinese holidays and lunar dates, reminders, a desktop widget and a server
that keeps several devices alike.

- `src/` is the library, verified with Verus: dates and instants, the rules by which events recur,
  the repository of the device, reminders, the comparison of device and server, the handlers of the
  windows, the HTTP client's requests and responses, and the server with its accounts. Each public
  function states what it does; laws that span several functions are public proof functions.
- `app/` is the program around it: the databases, the network, the terminal, notifications and logs.
  Run it without arguments for the calendar, with `widget` for the desktop widget and with `server`
  for the server.
- `tests/` runs the library on concrete values.
