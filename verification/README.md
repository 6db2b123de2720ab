# input_focus

The decisions of a service that reports, for each seat, its input devices and
its active login session.

- `src/` is the verified library: the tests on udev device properties and tags,
  the query for a seat's keyboards, the list of keyboards found, the assembly of
  logind's session list with its active marks, the changes reported for udev
  events and new sessions, and the step of the udev wait loop.
- `app/` is the program around it: udev enumeration and monitoring, the logind
  proxies on the system bus, the tokio tasks and the `ppoll` loop.
- `tests/` runs the library on concrete values.
