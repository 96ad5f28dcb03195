# ferrous-comics

Mails new xkcd comics to their readers. A run asks the comic server for the latest comic, takes up
the comics that were published since the last run, oldest first, downloads their images and mails
them. What was seen is kept in a database file, so that no comic is mailed twice.

The library under `src/` is verified with Verus:

- `run` decides which comics a run takes up and what is done about each of them, step by step.
- `db` keeps the record of the comics that were seen, and takes a legacy history file over.
- `email` and `html` write the mails, `date` writes their dates, `post` hands them to `lettre`.
- `http` says what to ask the comic server for and what its replies mean.
- `config` reads the settings, `text` has what all of them need to read and write text.

The calls into `redb`, `lettre` and `chrono` stand behind small functions that are marked
`external_body`. Their comments say what is taken for granted of the outside function.

The program under `app/` performs the steps of a run: it reads the environment, the clock, the
network and files, and hands mails to the mail server.
