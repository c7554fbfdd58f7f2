# theme_settings

The decision logic of a GTK theme settings page, verified with Verus:

- `search`: the case-insensitive theme name search and the Control+A shortcut of the search field;
- `catalog`: the appearance filter and which catalog cards stay visible;
- `selection`: which theme card shows as selected, and the active text size button;
- `themes`: which themes go to the catalog, and which custom themes still need a card;
- `text`: the std string functions the search relies on, with their documented behaviour.

`app/` holds the GTK widgets, signal wiring and drawing, which call the library.
