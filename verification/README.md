# stock_widget

The verified core of a semi-transparent floating stock/ETF quote widget for
Windows.

- `src/` — the library, verified with Verus:
  - `config` — the persisted configuration (watched symbols, learned names,
    window place, opacity) and its operations;
  - `stock` — mapping symbols to the quote service's codes, the request
    address, and reading the service's reply;
  - `widget` — colors, opacity, layout, the context menu and its commands,
    the mouse drag/resize state machine, the opacity dialog;
  - `text` — character-level helpers (trim, split, decimal numbers).
- `app/` — the Windows program around it: the Win32 window and dialogs, the
  HTTP request, reading prices as floating point, and the JSON file.
- `tests/` — tests of the library on concrete values.
