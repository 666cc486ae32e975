# ai_mentor

A 20-hour-rule study coach: a command-line mentor drafts a course for each
subject, and the app tracks practice, quizzes, spaced-repetition reviews and
weekly projects along a roadmap of subjects.

- `src/` is the library, written and proved with Verus: the JSON extraction
  and prompts for the mentor CLI, the difficulty ramp, job-posting matching,
  the job queue, quizzes, scheduling, the practice timer, analytics, the
  roadmap's unlock rules and the choice of update.
- `tests/` runs the library on concrete cases.
- `app/` is the window (egui), the SQLite database, the worker threads and
  the network calls. The library makes the decisions about the data; `app/`
  chooses the status and error texts it shows, and does the float work (the
  review easiness factor and the progress percentages).
