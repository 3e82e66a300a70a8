# compact_launcher

The logic of Compact Launcher, a COSMIC panel applet that shows the installed
applications as a grid of icons, written in Verus with its contracts proved.

- `src/` is the verified library: reading `.desktop` files (`desktop`),
  the hidden-application patterns (`glob`), the sorted application list
  (`catalog`), the directories that are scanned and their fingerprint
  (`dirs`), the applet's state and how each message changes it (`model`),
  and the laws that hold across them (`laws`, and `filter_laws` for what
  more hidden-app patterns do to the application list).
- `app/` is the applet itself: the COSMIC window and widgets, the settings
  store, reading the file system and starting programs. It hands the library
  plain values and carries out the effects that the library returns.
- `tests/` runs the library on concrete inputs.
