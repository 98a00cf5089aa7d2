# rtop

A terminal system monitor for Linux: processors, graphics card, memory, disk and processes on
one screen, with a process list that groups processes by application and can send signals.

The library in `src/` holds what the monitor decides and shows, and is verified with Verus:

- `text`, `split`, `number`, `figure`, `reading`, `order` – characters, lines and fields,
  numbers as text, measured quantities as bit patterns, stable sorting
- `cpu`, `pairs`, `gpu`, `pci`, `usage`, `desktop` – what the files and commands of the system
  say about processors, cards, memory, storage and applications
- `models`, `config`, `processes`, `app`, `flat`, `tui` – the process list, its selection, the
  action menu, and the course of a session
- `theme`, `layout`, `plan`, `widgets`, `lines`, `banner`, `panels`, `ui` – what is drawn, and
  where

Times are nanoseconds on a clock that never goes back. Quantities that are measured as
single-precision numbers are held as their bit patterns and compared without floating-point
arithmetic.

What holds of the library as a whole is stated in proof functions whose names begin with
`law_`.

`app/` is the program: it reads the system, does the floating-point arithmetic, runs the
terminal and paints what the library draws. `tests/` runs the library on concrete values.
