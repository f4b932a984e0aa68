# widgetry_panel

The core of a scrollable panel of widgets, verified with Verus.

- `src/widget.rs`: the widget tree, kept in pre-order with depths; lookup by name
  (the first match in pre-order), replacing a widget while keeping its style, and the
  buttons' actions.
- `src/panel.rs`: configuring a panel (size limits) and building it: the contents are
  put beside a horizontal and a vertical scrollbar where they do not fit, and a panel
  that scrolls is clipped, and a built panel is then handed a no-op event; typed
  access to the widgets by name; moving a scrollbar keeps the panel's invariant.
- `src/plan.rs`: the steps of drawing a panel, of moving it to a scroll offset and of
  handing it an event, with the laws they obey.

`app/` is the unverified part: screen geometry and scroll arithmetic on floating
point, flexbox layout with `stretch`, and carrying out the steps the library decides.
