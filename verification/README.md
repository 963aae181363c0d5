# annex

The logic of Annex, a host that streams a Mac desktop to other machines on
the local network, written in Verus and proved against its contracts.

- `src/` is the verified library: H.264 Annex-B framing and stream checks,
  the keyboard map and input decisions, token, `Origin` and `Host` checks,
  the signalling state machine, the display census and menu text, the icon
  and QR rasterisation, frame packing, mode selection and command-line
  parsing, and PNG encoding. Calls into `subtle`, `getrandom`, `qrcode`
  and `png` go through small trusted wrappers whose contracts say what
  those crates' sources show.
- `tests/` exercises the library on concrete values.
- `app/` is the binary around it: argument and file I/O, Quartz calls, JSON
  shapes, and the floating-point drawing and coordinate mapping that the
  library leaves to its caller.

The binary does not stream. It writes the iconset, prints help, checks
permissions, prints the connect URL and its QR code, and takes the display
census. Creating the virtual display, ScreenCaptureKit capture,
VideoToolbox encoding, the WebRTC server and the menu bar are not built:
they need macOS frameworks and an async runtime this build does not link.
The streaming modes say so and exit. The signalling state machine, the
upgrade decision and the other logic they would drive are in the library.
