# Next meeting: the scheduling helper

A user marks spans of free time on a week grid, and the helper turns them into a message that can
be pasted into a mail. This crate is the part of the helper that decides and computes, written in
Verus: every function states what it does in a contract, and Verus proves it.

- `src/` is the library.
  - `date`, `local_time`: dates by their day numbers, and points in time with the wall clock they
    are read on. What `chrono` computes is called through small trusted functions there.
  - `locale`, `text`: times and dates in words.
  - `scheduling`: merging spans and composing the message; `span_laws`: what holds of merging.
  - `calendar`, `free_time`: events, and the free time between them.
  - `grid`, `gesture`, `scene`: the week grid, what the pointer does to it, and what it shows;
    `gesture_laws`: what holds of every gesture.
  - `uid_set`, `scheduling_app`, `window`: the state of the window, what each message makes of it,
    and what the window shows; `app_laws`: what holds of the window whatever happens to it.
  - `launch`: what the program does when it starts.
- `tests/` runs the library on given values.
- `app/` is the program around it: arguments, the session bus, the C library's locale, pixels, and
  the toolkit's window.
